use agile::fitness::AgileFitness;
use agile::model::geo::Pos;
use agile::model::refract::Snells;
use agile::model::stack::{Place, Stack};
use agile::model::sweep::SimConfig;
use agile::model::trace::{trace_one, Step, Traced, Tracer};
use agile::model::units::{
    mm_tenths_to_microns, model_ri_to_real_ri, Microradians, RIGHT_ANGLE, RI_AIR,
};
use agile::model::{raytrace, summarise_traces, Performance};
use agile::paramset::ParamSet;

fn slots(codes: &[u8]) -> [Option<u8>; 10] {
    let mut layers = [None; 10];
    for (i, c) in codes.iter().enumerate() {
        layers[i] = Some(*c);
    }
    layers
}

fn design(layers_thickness: u8, partitions_thickness: u8, codes: &[u8]) -> ParamSet {
    ParamSet { layers_thickness, partitions_thickness, layers: slots(codes) }
}

fn ray(dir: Microradians, going_down: bool) -> Pos {
    Pos { x: 7, y: 1000, ri: 51, dir, going_down }
}

fn straight(_old: u8, _new: u8, dir: Microradians) -> Snells {
    Snells::Refracted(dir)
}

#[test]
fn tenths_of_a_millimetre_are_a_hundred_microns() {
    assert_eq!(mm_tenths_to_microns(0), 0);
    assert_eq!(mm_tenths_to_microns(1), 100);
    assert_eq!(mm_tenths_to_microns(30), 3_000);
    assert_eq!(mm_tenths_to_microns(255), 25_500);
}

#[test]
fn index_codes_count_hundredths_above_ninety_nine() {
    assert_eq!(model_ri_to_real_ri(RI_AIR), 100);
    assert_eq!(model_ri_to_real_ri(34), 133);
    assert_eq!(model_ri_to_real_ri(51), 150);
    assert_eq!(model_ri_to_real_ri(255), 354);
}

#[test]
fn score_weighs_ratio_ten_angle_five_travel_one() {
    let max = u32::MAX as u64;
    let worst = Performance { exit_ratio: 0, exit_angle: u32::MAX, light_travel: u32::MAX };
    assert_eq!(worst.summarise(), 0);
    let best = Performance { exit_ratio: u32::MAX, exit_angle: 0, light_travel: 0 };
    assert_eq!(best.summarise(), 16 * max);
    let some = Performance { exit_ratio: 1000, exit_angle: 200, light_travel: 30 };
    assert_eq!(some.summarise(), 10 * 1000 + 5 * (max - 200) + (max - 30));
}

#[test]
fn score_never_falls_as_a_record_gets_better() {
    let base = Performance { exit_ratio: 1000, exit_angle: 200, light_travel: 30 };
    let more_light = Performance { exit_ratio: 1001, ..base };
    let steeper = Performance { exit_angle: 199, ..base };
    let shorter = Performance { light_travel: 29, ..base };
    assert!(more_light.summarise() >= base.summarise());
    assert!(steeper.summarise() >= base.summarise());
    assert!(shorter.summarise() >= base.summarise());
    assert_eq!(more_light.summarise() - base.summarise(), 10);
    assert_eq!(steeper.summarise() - base.summarise(), 5);
    assert_eq!(shorter.summarise() - base.summarise(), 1);
}

#[test]
fn same_medium_leaves_direction_and_heading_alone() {
    for bend in [Snells::Refracted(5), Snells::Reflected, Snells::Critical] {
        for going_down in [true, false] {
            let mut p = ray(300_000, going_down);
            p.refract_into(51, bend);
            assert_eq!(p, ray(300_000, going_down));
        }
    }
}

#[test]
fn ray_along_the_normal_only_changes_medium() {
    for bend in [Snells::Refracted(5), Snells::Reflected, Snells::Critical] {
        let mut p = ray(0, true);
        p.refract_into(40, bend);
        assert_eq!(p, Pos { ri: 40, ..ray(0, true) });
    }
}

#[test]
fn refraction_takes_the_new_incidence() {
    let mut p = ray(300_000, true);
    assert!(p.bends_into(40));
    assert!(!p.bends_into(51));
    p.refract_into(40, Snells::Refracted(-123_456));
    assert_eq!(p, Pos { ri: 40, dir: -123_456, ..ray(300_000, true) });
}

#[test]
fn reflection_mirrors_and_turns_round() {
    let mut p = ray(300_000, true);
    p.refract_into(40, Snells::Reflected);
    assert_eq!(p, Pos { ri: 40, dir: -300_000, going_down: false, ..ray(0, true) });
    p.refract_into(51, Snells::Reflected);
    assert_eq!(p, Pos { ri: 51, dir: 300_000, going_down: true, ..ray(0, true) });
}

#[test]
fn critical_angle_snaps_to_a_quarter_turn_heading_down() {
    let mut p = ray(300_000, false);
    p.refract_into(40, Snells::Critical);
    assert_eq!(p, Pos { ri: 40, dir: RIGHT_ANGLE, going_down: true, ..ray(0, true) });
    let mut q = ray(-300_000, true);
    q.refract_into(40, Snells::Critical);
    assert_eq!(q, Pos { ri: 40, dir: -RIGHT_ANGLE, going_down: true, ..ray(0, true) });
}

#[test]
fn tame_brings_angles_into_range() {
    assert_eq!(Snells::Refracted(2_000_000).tame(), Snells::Refracted(RIGHT_ANGLE));
    assert_eq!(Snells::Refracted(-2_000_000).tame(), Snells::Refracted(-RIGHT_ANGLE));
    assert_eq!(Snells::Refracted(17).tame(), Snells::Refracted(17));
    assert_eq!(Snells::Reflected.tame(), Snells::Reflected);
    assert_eq!(Snells::Critical.tame(), Snells::Critical);
    assert!(Snells::Refracted(RIGHT_ANGLE).is_valid());
    assert!(!Snells::Refracted(RIGHT_ANGLE + 1).is_valid());
}

#[test]
fn travel_goes_to_the_boundary_ahead() {
    let mut down = ray(5, true);
    assert_eq!(down.travel_to_next_boundary(1200, 400), 600);
    assert_eq!(down, Pos { y: 400, ..ray(5, true) });
    let mut up = ray(5, false);
    assert_eq!(up.travel_to_next_boundary(1200, 400), 200);
    assert_eq!(up, Pos { y: 1200, ..ray(5, false) });
}

#[test]
fn stack_of_the_first_design() {
    let stack = Stack::new(ParamSet::nth(0), 3_000);
    assert_eq!(stack.part_um, 200);
    assert_eq!(stack.layer_um, 3_000);
    assert_eq!(stack.layers, vec![34]);
    assert_eq!(stack.height, 3_200);
}

#[test]
fn stack_height_is_one_pair_for_each_active_layer() {
    let stack = Stack::new(design(255, 30, &[40, 41, 42]), 3_000);
    assert_eq!(stack.part_um, 3_000);
    assert_eq!(stack.layer_um, 28_500);
    assert_eq!(stack.layers, vec![40, 41, 42]);
    assert_eq!(stack.height, 3 * 31_500);
}

#[test]
fn stack_stops_at_the_first_absent_slot() {
    let mut p = design(0, 2, &[40, 41, 42]);
    p.layers[1] = None;
    let stack = Stack::new(p, 3_000);
    assert_eq!(stack.layers, vec![40]);
    assert_eq!(stack.height, 3_200);
}

#[test]
fn stack_sizes_saturate() {
    let stack = Stack::new(design(10, 2, &[40, 41]), u64::MAX - 500);
    assert_eq!(stack.layer_um, u64::MAX);
    assert_eq!(stack.height, u64::MAX);
}

#[test]
fn trace_starts_in_the_air_on_top() {
    let stack = Stack::new(design(0, 2, &[40, 41]), 3_000);
    let t = Tracer::start(&stack, 5_000, 100_000);
    assert_eq!(t.place, Place::Above);
    assert_eq!(t.ray, Pos { x: 5_000, y: 6_400, ri: RI_AIR, dir: 100_000, going_down: true });
    assert_eq!(t.travel, 0);
    assert_eq!(t.result, None);
    assert_eq!(t.next(&stack), Step::Refract { old_ri: 1, new_ri: 51, dir: 100_000 });
}

#[test]
fn trace_over_no_layers_is_through_at_once() {
    let stack = Stack::new(design(0, 2, &[]), 3_000);
    let t = Tracer::start(&stack, 0, -7);
    assert_eq!(t.result, Some(Traced::BottomExit { angle: -7, travel: 0 }));
    assert_eq!(t.next(&stack), Step::Done(Traced::BottomExit { angle: -7, travel: 0 }));
}

#[test]
fn trace_walks_partition_layer_partition_layer() {
    let stack = Stack::new(design(0, 2, &[40, 41]), 3_000);
    let mut t = Tracer::start(&stack, 0, 100_000);

    t.advance(&stack, Snells::Refracted(60_000));
    assert_eq!(t.place, Place::Partition(0));
    assert_eq!((t.boundary_above, t.boundary_below), (6_400, 6_200));
    assert_eq!(t.ray, Pos { x: 0, y: 6_200, ri: 51, dir: 60_000, going_down: true });
    assert_eq!(t.travel, 200);
    assert_eq!(t.next(&stack), Step::Refract { old_ri: 51, new_ri: 40, dir: 60_000 });

    t.advance(&stack, Snells::Refracted(70_000));
    assert_eq!(t.place, Place::Layer(0));
    assert_eq!((t.boundary_above, t.boundary_below), (6_200, 3_200));
    assert_eq!(t.ray.y, 3_200);
    assert_eq!(t.travel, 3_200);
    assert_eq!(t.next(&stack), Step::Refract { old_ri: 40, new_ri: 51, dir: 70_000 });

    t.advance(&stack, Snells::Refracted(60_000));
    assert_eq!(t.place, Place::Partition(1));
    assert_eq!(t.ray.y, 3_000);
    assert_eq!(t.next(&stack), Step::Refract { old_ri: 51, new_ri: 41, dir: 60_000 });

    t.advance(&stack, Snells::Refracted(65_000));
    assert_eq!(t.place, Place::Layer(1));
    assert_eq!(t.ray.y, 0);
    assert_eq!(t.travel, 6_400);
    assert_eq!(t.result, Some(Traced::BottomExit { angle: 65_000, travel: 6_400 }));
    assert_eq!(
        t.next(&stack),
        Step::Done(Traced::BottomExit { angle: 65_000, travel: 6_400 })
    );
}

#[test]
fn reflection_at_the_entry_sends_the_ray_back_out() {
    let stack = Stack::new(design(0, 2, &[40, 41]), 3_000);
    let mut t = Tracer::start(&stack, 0, 100_000);
    t.advance(&stack, Snells::Reflected);
    assert_eq!(t.place, Place::Above);
    assert_eq!(t.ray.ri, RI_AIR);
    assert_eq!(t.travel, 0);
    assert_eq!(t.result, Some(Traced::TopExit));
}

#[test]
fn reflection_inside_keeps_the_ray_in_its_place_and_medium() {
    let stack = Stack::new(design(0, 2, &[40, 41]), 3_000);
    let mut t = Tracer::start(&stack, 0, 100_000);
    t.advance(&stack, Snells::Refracted(60_000));
    // in the top partition, at its lower boundary: reflected off the layer
    t.advance(&stack, Snells::Reflected);
    assert_eq!(t.place, Place::Partition(0));
    assert_eq!(t.ray, Pos { x: 0, y: 6_400, ri: 51, dir: -60_000, going_down: false });
    assert_eq!((t.boundary_above, t.boundary_below), (6_400, 6_200));
    assert_eq!(t.travel, 400);
    assert_eq!(t.result, Some(Traced::TopExit));
}

#[test]
fn a_ray_turned_back_in_a_layer_climbs_out_again() {
    let stack = Stack::new(design(0, 2, &[40, 41]), 3_000);
    let mut t = Tracer::start(&stack, 0, 100_000);
    t.advance(&stack, Snells::Refracted(60_000));
    t.advance(&stack, Snells::Refracted(70_000));
    // in layer 0, at its lower boundary
    t.advance(&stack, Snells::Reflected);
    assert_eq!(t.place, Place::Layer(0));
    assert_eq!(t.ray, Pos { x: 0, y: 6_200, ri: 40, dir: -70_000, going_down: false });
    assert_eq!(t.result, None);
    assert_eq!(t.next(&stack), Step::Refract { old_ri: 40, new_ri: 51, dir: -70_000 });
    t.advance(&stack, Snells::Refracted(-60_000));
    assert_eq!(t.place, Place::Partition(0));
    assert_eq!(t.ray.y, 6_400);
    assert_eq!(t.travel, 200 + 3_000 + 3_000 + 200);
    assert_eq!(t.result, Some(Traced::TopExit));
}

#[test]
fn critical_angle_on_the_way_up_turns_the_ray_down() {
    let stack = Stack::new(design(0, 2, &[40, 41]), 3_000);
    let mut t = Tracer::start(&stack, 0, 100_000);
    t.advance(&stack, Snells::Refracted(60_000));
    t.advance(&stack, Snells::Refracted(70_000));
    t.advance(&stack, Snells::Reflected);
    // in layer 0, at its upper boundary, heading up
    t.advance(&stack, Snells::Critical);
    assert_eq!(t.place, Place::Layer(0));
    assert_eq!(t.ray, Pos { x: 0, y: 3_200, ri: 40, dir: -RIGHT_ANGLE, going_down: true });
    assert_eq!(t.result, None);
}

#[test]
fn trace_one_straight_through_travels_the_height() {
    let stack = Stack::new(design(5, 10, &[40, 41, 42]), 3_000);
    let traced = trace_one(&stack, 1_000, 250_000, 100, &straight);
    assert_eq!(traced, Traced::BottomExit { angle: 250_000, travel: 3 * (1_000 + 3_500) });
}

#[test]
fn trace_one_gives_up_after_the_allowed_boundaries() {
    let stack = Stack::new(design(5, 10, &[40, 41, 42]), 3_000);
    assert_eq!(trace_one(&stack, 0, 250_000, 5, &straight), Traced::Lost);
    assert_eq!(
        trace_one(&stack, 0, 250_000, 6, &straight),
        Traced::BottomExit { angle: 250_000, travel: 13_500 }
    );
    assert_eq!(trace_one(&stack, 0, 250_000, 0, &straight), Traced::Lost);
    let bounce = |_old: u8, new: u8, dir: Microradians| {
        if new == 51 {
            Snells::Refracted(dir)
        } else {
            Snells::Reflected
        }
    };
    assert_eq!(trace_one(&stack, 0, 250_000, 1_000, &bounce), Traced::TopExit);
    let trap = |old: u8, _new: u8, dir: Microradians| {
        if old == 1 {
            Snells::Refracted(dir)
        } else {
            Snells::Reflected
        }
    };
    assert_eq!(trace_one(&stack, 0, 250_000, 1_000, &trap), Traced::TopExit);
}

#[test]
fn trace_one_tames_what_the_caller_hands_in() {
    let stack = Stack::new(design(5, 10, &[40]), 3_000);
    let wild = |_old: u8, _new: u8, _dir: Microradians| Snells::Refracted(i32::MIN);
    assert_eq!(
        trace_one(&stack, 0, 250_000, 100, &wild),
        Traced::BottomExit { angle: -RIGHT_ANGLE, travel: 4_500 }
    );
}

#[test]
fn summary_of_no_rays() {
    let p = summarise_traces(&vec![]);
    assert_eq!(p, Performance { exit_ratio: 0, exit_angle: u32::MAX, light_travel: u32::MAX });
}

#[test]
fn summary_without_bottom_exits_is_the_worst() {
    let p = summarise_traces(&vec![Traced::TopExit, Traced::Lost, Traced::TopExit]);
    assert_eq!(p, Performance { exit_ratio: 0, exit_angle: u32::MAX, light_travel: u32::MAX });
    assert_eq!(p.summarise(), 0);
}

#[test]
fn summary_takes_ratio_mean_angle_and_total_travel() {
    let traces = vec![
        Traced::BottomExit { angle: -300_000, travel: 1_000 },
        Traced::TopExit,
        Traced::BottomExit { angle: 100_050, travel: 2_500 },
        Traced::Lost,
    ];
    let p = summarise_traces(&traces);
    assert_eq!(p.exit_ratio, (2 * u32::MAX as u64 / 4) as u32);
    assert_eq!(p.exit_angle, (400_050 / 2) / 100);
    assert_eq!(p.light_travel, 3_500);
}

#[test]
fn summary_of_all_through_has_the_full_ratio() {
    let traces = vec![Traced::BottomExit { angle: 0, travel: 10 }; 7];
    let p = summarise_traces(&traces);
    assert_eq!(p, Performance { exit_ratio: u32::MAX, exit_angle: 0, light_travel: 70 });
}

#[test]
fn summary_caps_the_travel() {
    let traces = vec![Traced::BottomExit { angle: 5, travel: u64::MAX }; 3];
    let p = summarise_traces(&traces);
    assert_eq!(p.light_travel, u32::MAX);
    assert_eq!(p.exit_angle, 0);
    let far = vec![Traced::BottomExit { angle: i32::MIN, travel: 1 }; 3];
    assert_eq!(summarise_traces(&far).exit_angle, (1u32 << 31) / 100);
}

#[test]
fn standard_sweep_has_twenty_one_points_and_thirty_seven_angles() {
    let config = SimConfig::standard();
    assert!(config.is_valid());
    let points = config.entry_points();
    assert_eq!(points.len(), 21);
    assert_eq!(points[0], 0);
    assert_eq!(points[1], 5_000);
    assert_eq!(points[20], 100_000);
    let angles = config.entry_angles();
    assert_eq!(angles.len(), 37);
    assert_eq!(angles[0], -RIGHT_ANGLE);
    assert_eq!(angles[18], -RIGHT_ANGLE + 18 * 87_266);
    assert_eq!(angles[36], -RIGHT_ANGLE + 36 * 87_266);
    assert!(angles[36] <= RIGHT_ANGLE);
}

#[test]
fn sweep_ends_at_or_before_its_limits() {
    let config = SimConfig {
        top_width: 10,
        entry_interval: 5,
        angle_min: -10,
        angle_max: 9,
        angle_interval: 10,
        layer_base: 0,
        max_crossings: 10,
    };
    assert_eq!(config.entry_points(), vec![0, 5, 10]);
    assert_eq!(config.entry_angles(), vec![-10, 0]);
    let single = SimConfig { top_width: 0, angle_max: -10, ..config };
    assert_eq!(single.entry_points(), vec![0]);
    assert_eq!(single.entry_angles(), vec![-10]);
    let none = SimConfig { angle_max: -11, ..config };
    assert_eq!(none.entry_angles(), Vec::<Microradians>::new());
    let wide = SimConfig { top_width: u64::MAX, entry_interval: u64::MAX, ..config };
    assert_eq!(wide.entry_points(), vec![0, u64::MAX]);
}

#[test]
fn config_validity() {
    let good = SimConfig::standard();
    assert!(!SimConfig { entry_interval: 0, ..good }.is_valid());
    assert!(!SimConfig { angle_interval: 0, ..good }.is_valid());
    assert!(!SimConfig { angle_interval: -5, ..good }.is_valid());
    assert!(!SimConfig { angle_min: -RIGHT_ANGLE - 1, ..good }.is_valid());
    assert!(!SimConfig { angle_max: RIGHT_ANGLE + 1, ..good }.is_valid());
    assert!(SimConfig { angle_min: 5, angle_max: 4, ..good }.is_valid());
}

#[test]
fn raytrace_straight_through_lets_every_ray_out() {
    let config = SimConfig {
        top_width: 10,
        entry_interval: 5,
        angle_min: -1_000,
        angle_max: 1_000,
        angle_interval: 500,
        layer_base: 3_000,
        max_crossings: 100,
    };
    let params = design(5, 10, &[40, 41, 42]);
    let p = raytrace(params, &config, &straight);
    // 3 entry points, 5 angles: -1000, -500, 0, 500, 1000
    assert_eq!(p.exit_ratio, u32::MAX);
    assert_eq!(p.exit_angle, (3 * 3_000 / 15) / 100);
    assert_eq!(p.light_travel, 15 * 13_500);
    let fitness = AgileFitness.fitness_of(&params, &config, &straight);
    assert_eq!(fitness, p.summarise());
}

#[test]
fn raytrace_counts_only_rays_that_leave_through_the_bottom() {
    let config = SimConfig {
        top_width: 0,
        entry_interval: 5,
        angle_min: -1_000,
        angle_max: 1_000,
        angle_interval: 1_000,
        layer_base: 3_000,
        max_crossings: 100,
    };
    let params = design(5, 10, &[40]);
    let picky = |_old: u8, _new: u8, dir: Microradians| {
        if dir > 0 {
            Snells::Reflected
        } else {
            Snells::Refracted(dir)
        }
    };
    let p = raytrace(params, &config, &picky);
    // -1000 and 0 pass, 1000 is sent back at the entry
    assert_eq!(p.exit_ratio, (2 * u32::MAX as u64 / 3) as u32);
    assert_eq!(p.exit_angle, (1_000 / 2) / 100);
    assert_eq!(p.light_travel, 2 * 4_500);
}

#[test]
fn raytrace_is_repeatable() {
    let config = SimConfig::standard();
    let params = ParamSet::nth(4_000_000_000_000_123);
    let bend = |old: u8, new: u8, dir: Microradians| {
        if old > new && dir.abs() > 700_000 {
            Snells::Reflected
        } else {
            Snells::Refracted(dir / 2)
        }
    };
    assert_eq!(raytrace(params, &config, &bend), raytrace(params, &config, &bend));
}
