use agile::model::refract::{snells, Snells};
use agile::model::stack::Stack;
use agile::model::sweep::SimConfig;
use agile::model::trace::{trace_one, Traced};
use agile::model::units::{Billionths, Microradians, RIGHT_ANGLE, WHOLE};
use agile::model::raytrace;
use agile::paramset::ParamSet;
use ang::Angle;

fn sine(angle: Microradians) -> Billionths {
    (Angle::Radians(f64::from(angle) * 1e-6).sin() * 1e9).round() as Billionths
}

fn arcsine(sine: Billionths) -> Microradians {
    (ang::asin(sine as f64 * 1e-9).unwrap().in_radians() * 1e6).round() as Microradians
}

fn refraction(old_ri: u8, new_ri: u8, incidence: Microradians) -> Snells {
    snells(old_ri, new_ri, incidence, &sine, &arcsine)
}

fn design(layers_thickness: u8, partitions_thickness: u8, codes: &[u8]) -> ParamSet {
    let mut layers = [None; 10];
    for (i, c) in codes.iter().enumerate() {
        layers[i] = Some(*c);
    }
    ParamSet { layers_thickness, partitions_thickness, layers }
}

#[test]
fn light_from_the_air_bends_towards_the_normal() {
    // 30 degrees in air, into acrylic: asin(sin(30 deg) / 1.5) = 19.47 deg
    assert_eq!(refraction(1, 51, 523_599), Snells::Refracted(339_837));
    assert_eq!(refraction(1, 51, -523_599), Snells::Refracted(-339_837));
    assert_eq!(refraction(51, 51, 523_599), Snells::Refracted(523_599));
}

#[test]
fn light_in_acrylic_is_held_back_by_water_beyond_the_critical_angle() {
    // asin(1.33 / 1.5) = 62.46 deg = 1.0901 rad
    assert!(matches!(refraction(51, 34, 1_080_000), Snells::Refracted(_)));
    assert_eq!(refraction(51, 34, 1_100_000), Snells::Reflected);
    assert_eq!(refraction(51, 34, -1_100_000), Snells::Reflected);
}

#[test]
fn ray_along_the_normal_goes_straight_through() {
    let stack = Stack::new(design(0, 2, &[34, 51, 40]), 3_000);
    assert_eq!(
        trace_one(&stack, 0, 0, 100, &refraction),
        Traced::BottomExit { angle: 0, travel: 9_600 }
    );
}

#[test]
fn ray_leaves_a_layer_of_water_at_the_angle_it_has_in_water() {
    let stack = Stack::new(design(0, 2, &[34]), 3_000);
    // 30 degrees in air is asin(sin(30 deg) / 1.33) = 22.08 deg in water
    match trace_one(&stack, 0, 523_599, 100, &refraction) {
        Traced::BottomExit { angle, travel } => {
            assert!((angle - 385_400).abs() < 100);
            assert_eq!(travel, 3_200);
        }
        other => panic!("the ray should be through, not {:?}", other),
    }
}

#[test]
fn every_ray_from_the_air_gets_through_a_stack() {
    let config = SimConfig::standard();
    for n in [0u64, 77_777_777_777, 8_000_000_000_000_000] {
        let params = ParamSet::nth(n);
        let stack = Stack::new(params, config.layer_base);
        for angle in config.entry_angles() {
            let traced = trace_one(&stack, 0, angle, config.max_crossings, &refraction);
            match traced {
                Traced::BottomExit { angle: out, travel } => {
                    assert_eq!(travel, stack.height);
                    assert!(out.abs() <= RIGHT_ANGLE);
                    assert!(out.abs() <= angle.abs());
                }
                other => panic!("the ray at {} should be through, not {:?}", angle, other),
            }
        }
        let p = raytrace(params, &config, &refraction);
        assert_eq!(p.exit_ratio, u32::MAX);
        assert_eq!(p.light_travel as u64, 21 * 37 * stack.height);
    }
}

#[test]
fn steeper_light_scores_better() {
    let config = SimConfig::standard();
    let water = raytrace(design(0, 2, &[34]), &config, &refraction);
    let acrylic = raytrace(design(0, 2, &[51]), &config, &refraction);
    // acrylic bends the light further towards the normal than water does
    assert!(acrylic.exit_angle < water.exit_angle);
    assert_eq!(acrylic.light_travel, water.light_travel);
    assert!(acrylic.summarise() > water.summarise());
}

fn fixed(sine: Billionths) -> impl Fn(Microradians) -> Billionths {
    move |_angle| sine
}

fn echo(sine: Billionths) -> Microradians {
    (sine / 1_000) as Microradians
}

#[test]
fn snell_compares_the_new_sine_with_one() {
    // from acrylic (1.50) to water (1.33): the new sine is 150 / 133 of the old
    assert_eq!(snells(51, 34, 0, &fixed(500_000_000), &echo), Snells::Refracted(563_909));
    assert_eq!(snells(51, 34, 0, &fixed(-500_000_000), &echo), Snells::Refracted(-563_909));
    assert_eq!(snells(51, 34, 0, &fixed(886_666_666), &echo), Snells::Refracted(999_999));
    assert_eq!(snells(51, 34, 0, &fixed(886_666_667), &echo), Snells::Reflected);
    assert_eq!(snells(51, 34, 0, &fixed(-900_000_000), &echo), Snells::Reflected);
    // from water to acrylic nothing is ever reflected
    assert_eq!(snells(34, 51, 0, &fixed(WHOLE), &echo), Snells::Refracted(886_666));
}

#[test]
fn snell_is_critical_where_the_new_sine_is_exactly_one() {
    // from index 2.00 to index 1.00 at a sine of one half
    assert_eq!(snells(101, 1, 0, &fixed(500_000_000), &echo), Snells::Critical);
    assert_eq!(snells(101, 1, 0, &fixed(-500_000_000), &echo), Snells::Critical);
    assert_eq!(snells(101, 1, 0, &fixed(499_999_999), &echo), Snells::Refracted(999_999));
    assert_eq!(snells(101, 1, 0, &fixed(500_000_001), &echo), Snells::Reflected);
    // between equal media, at a sine of one
    assert_eq!(snells(40, 40, 0, &fixed(WHOLE), &echo), Snells::Critical);
}

#[test]
fn snell_tames_sines_and_angles_out_of_range() {
    assert_eq!(snells(40, 40, 0, &fixed(i64::MAX), &echo), Snells::Critical);
    assert_eq!(snells(40, 40, 0, &fixed(i64::MIN), &echo), Snells::Critical);
    let far = |_sine: Billionths| i32::MAX;
    assert_eq!(snells(40, 40, 0, &fixed(5), &far), Snells::Refracted(RIGHT_ANGLE));
}
