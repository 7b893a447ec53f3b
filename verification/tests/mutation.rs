use agile::mutation::breeder::{self, settle, BreederSteps};
use agile::mutation::crossover::AgileCrossBreeder;
use agile::mutation::random::{self, draw};
use agile::mutation::{apply_value, old_value, Locus, LOCUS_COUNT};
use agile::paramset::ParamSet;
use genevo::random::{get_rng, Prng};

fn rng(tag: u8) -> Prng {
    get_rng([tag; 32])
}

fn slots(codes: &[u8]) -> [Option<u8>; 10] {
    let mut layers = [None; 10];
    for (i, c) in codes.iter().enumerate() {
        layers[i] = Some(*c);
    }
    layers
}

fn design(layers_thickness: u8, partitions_thickness: u8, codes: &[u8]) -> ParamSet {
    ParamSet { layers_thickness, partitions_thickness, layers: slots(codes) }
}

fn raw_codes_are_sound(p: &ParamSet) -> bool {
    (0..10).all(|k| {
        let code = old_value(*p, 3 + k);
        code == 0 || code >= ParamSet::MINIMUM_RI
    })
}

#[test]
fn there_are_thirteen_loci() {
    assert_eq!(LOCUS_COUNT, 3 + ParamSet::LAYERS);
    assert_eq!(Locus::from_index(0), Some(Locus::Length));
    assert_eq!(Locus::from_index(1), Some(Locus::LayersThickness));
    assert_eq!(Locus::from_index(2), Some(Locus::PartitionsThickness));
    assert_eq!(Locus::from_index(3), Some(Locus::Ri(0)));
    assert_eq!(Locus::from_index(12), Some(Locus::Ri(9)));
    assert_eq!(Locus::from_index(13), None);
}

#[test]
fn a_locus_reads_and_writes_its_own_field() {
    let mut p = design(77, 15, &[40, 51, 34]);
    assert_eq!(Locus::Length.get(&p), 3);
    assert_eq!(Locus::LayersThickness.get(&p), 77);
    assert_eq!(Locus::PartitionsThickness.get(&p), 15);
    assert_eq!(Locus::Ri(1).get(&p), 51);
    assert_eq!(Locus::Ri(9).get(&p), 0);
    Locus::Ri(1).set(&mut p, 45);
    Locus::LayersThickness.set(&mut p, 1);
    Locus::PartitionsThickness.set(&mut p, 19);
    Locus::Length.set(&mut p, 4);
    assert_eq!(p, design(1, 20, &[40, 45, 34, 34]));
}

#[test]
fn old_value_reads_each_locus() {
    let p = design(77, 15, &[40, 51, 34]);
    assert_eq!(old_value(p, 0), 3);
    assert_eq!(old_value(p, 1), 77);
    assert_eq!(old_value(p, 2), 15);
    assert_eq!(old_value(p, 3), 40);
    assert_eq!(old_value(p, 4), 51);
    assert_eq!(old_value(p, 5), 34);
    assert_eq!(old_value(p, 6), 0);
    assert_eq!(old_value(p, 12), 0);
}

#[test]
fn length_locus_grows_with_the_minimum_code() {
    let mut p = design(1, 2, &[40, 41]);
    apply_value(&mut p, 0, 5);
    assert_eq!(p, design(1, 2, &[40, 41, 34, 34, 34]));
}

#[test]
fn length_locus_shrinks_from_the_new_length_on() {
    let mut p = design(1, 2, &[40, 41, 42, 43]);
    apply_value(&mut p, 0, 1);
    assert_eq!(p, design(1, 2, &[40]));
    apply_value(&mut p, 0, 0);
    assert_eq!(p, design(1, 2, &[]));
}

#[test]
fn length_locus_wraps_at_eleven() {
    let mut p = design(1, 2, &[40]);
    apply_value(&mut p, 0, 10);
    assert_eq!(p.len(), 10);
    apply_value(&mut p, 0, 11);
    assert_eq!(p.len(), 0);
    apply_value(&mut p, 0, 255);
    assert_eq!(p.len(), 255 % 11);
    assert_eq!(p.layers[0], Some(34));
}

#[test]
fn layers_thickness_locus_takes_any_byte() {
    let mut p = design(1, 2, &[40]);
    apply_value(&mut p, 1, 255);
    assert_eq!(p, design(255, 2, &[40]));
    apply_value(&mut p, 1, 0);
    assert_eq!(p, design(0, 2, &[40]));
}

#[test]
fn partitions_thickness_locus_normalises() {
    let mut p = design(1, 2, &[40]);
    apply_value(&mut p, 2, 14);
    assert_eq!(p, design(1, 15, &[40]));
    apply_value(&mut p, 2, 200);
    assert_eq!(p, design(1, 30, &[40]));
    apply_value(&mut p, 2, 5);
    assert_eq!(p, design(1, 4, &[40]));
}

#[test]
fn slot_locus_raises_small_codes() {
    let mut p = design(1, 2, &[40, 41, 42]);
    apply_value(&mut p, 4, 7);
    assert_eq!(p, design(1, 2, &[40, 34, 42]));
    apply_value(&mut p, 3, 200);
    assert_eq!(p, design(1, 2, &[200, 34, 42]));
}

#[test]
fn slot_locus_leaves_absent_slots_alone() {
    let mut p = design(1, 2, &[40, 41]);
    apply_value(&mut p, 5, 50);
    assert_eq!(p, design(1, 2, &[40, 41]));
    apply_value(&mut p, 12, 0);
    assert_eq!(p, design(1, 2, &[40, 41]));
}

#[test]
fn zero_clears_a_slot_and_closes_the_gap() {
    let mut p = design(1, 2, &[40, 41, 42, 43]);
    apply_value(&mut p, 4, 0);
    assert_eq!(p, design(1, 2, &[40, 42, 43]));
    apply_value(&mut p, 5, 0);
    assert_eq!(p, design(1, 2, &[40, 42]));
    let mut full = design(1, 2, &[35, 36, 37, 38, 39, 40, 41, 42, 43, 44]);
    apply_value(&mut full, 3, 0);
    assert_eq!(full, design(1, 2, &[36, 37, 38, 39, 40, 41, 42, 43, 44]));
    apply_value(&mut full, 11, 0);
    assert_eq!(full, design(1, 2, &[36, 37, 38, 39, 40, 41, 42, 43]));
}

#[test]
fn every_write_keeps_a_design_valid() {
    let starts = [ParamSet::nth(0), ParamSet::nth(987_654_321_012), design(3, 30, &[])];
    for start in starts {
        for index in 0..LOCUS_COUNT {
            for new in 0..=255u8 {
                let mut p = start;
                apply_value(&mut p, index, new);
                assert!(p.is_valid());
                assert!(raw_codes_are_sound(&p));
            }
        }
    }
}

#[test]
fn random_mutation_keeps_codes_absent_or_at_least_the_minimum() {
    let mut r = rng(1);
    for n in 0..200u64 {
        let genome = ParamSet::nth(n * 40_000_000_000_007 % ParamSet::MAX_POSSIBILITIES);
        let mutated = random::mutate_genome(genome, 20, 0, 255, &mut r);
        assert!(mutated.is_valid());
        assert!(raw_codes_are_sound(&mutated));
    }
}

#[test]
fn random_mutation_of_no_mutations_changes_nothing() {
    let genome = ParamSet::nth(55_555);
    assert_eq!(random::mutate_genome(genome, 0, 0, 255, &mut rng(2)), genome);
}

#[test]
fn random_mutation_draws_within_the_bounds() {
    let genome = design(0, 2, &[34, 34, 34]);
    let mutated = random::mutate_genome(genome, 200, 100, 101, &mut rng(3));
    // every locus has been written by now, and always with 100
    assert_eq!(mutated.layers_thickness, 100);
    assert_eq!(mutated.partitions_thickness, 30);
    assert_eq!(mutated.len(), 100 % 11);
    assert_eq!(mutated.layers[0], Some(100));
}

#[test]
fn random_mutation_reaches_every_locus() {
    let genome = design(0, 2, &[34, 34, 34, 34, 34, 34, 34, 34, 34, 34]);
    let mut r = rng(4);
    let mut changed = [false; 13];
    for _ in 0..400 {
        let mutated = random::mutate_genome(genome, 1, 60, 61, &mut r);
        for (index, seen) in changed.iter_mut().enumerate() {
            if old_value(mutated, index) != old_value(genome, index) {
                *seen = true;
            }
        }
    }
    assert_eq!(changed, [true; 13]);
}

fn steps_of(range: u8) -> BreederSteps {
    let mut steps = BreederSteps {
        up: [0; 256],
        down: [0; 256],
        fine_up: [0; 256],
        fine_down: [0; 256],
    };
    for v in 0..256usize {
        steps.up[v] = (v as u8).saturating_add(range);
        steps.down[v] = (v as u8).saturating_sub(range);
        steps.fine_up[v] = (v as u8).saturating_add(range / 2);
        steps.fine_down[v] = (v as u8).saturating_sub(range / 2);
    }
    steps
}

#[test]
fn steps_are_looked_up_by_sign_and_size() {
    let steps = steps_of(10);
    assert_eq!(steps.step(100, 1, false), 110);
    assert_eq!(steps.step(100, -1, false), 90);
    assert_eq!(steps.step(100, 1, true), 105);
    assert_eq!(steps.step(100, -1, true), 95);
    assert_eq!(steps.step(250, 1, false), 255);
    assert_eq!(steps.step(3, -1, false), 0);
}

#[test]
fn settle_keeps_what_is_within_the_bounds() {
    let mut r = rng(5);
    assert_eq!(settle(50, 10, 200, &mut r), 50);
    assert_eq!(settle(10, 10, 200, &mut r), 10);
    assert_eq!(settle(200, 10, 200, &mut r), 200);
}

#[test]
fn settle_caps_what_is_above_the_bounds() {
    assert_eq!(settle(201, 10, 200, &mut rng(6)), 200);
    assert_eq!(settle(255, 0, 1, &mut rng(6)), 1);
}

#[test]
fn settle_redraws_what_is_below_the_bounds() {
    let mut r = rng(7);
    let mut seen = Vec::new();
    for _ in 0..300 {
        let v = settle(3, 10, 20, &mut r);
        assert!((10..20).contains(&v));
        if !seen.contains(&v) {
            seen.push(v);
        }
    }
    assert_eq!(seen.len(), 10);
}

#[test]
fn breeder_mutation_keeps_codes_absent_or_at_least_the_minimum() {
    let steps = steps_of(40);
    let mut r = rng(8);
    for n in 0..200u64 {
        let genome = ParamSet::nth(n * 40_000_000_000_007 % ParamSet::MAX_POSSIBILITIES);
        let mutated = breeder::mutate_genome(genome, 20, &steps, 0, 255, &mut r);
        assert!(mutated.is_valid());
        assert!(raw_codes_are_sound(&mutated));
    }
}

#[test]
fn breeder_mutation_of_no_mutations_changes_nothing() {
    let genome = ParamSet::nth(55_555);
    let same = breeder::mutate_genome(genome, 0, &steps_of(1), 0, 255, &mut rng(9));
    assert_eq!(same, genome);
}

#[test]
fn breeder_mutation_takes_each_of_the_four_steps() {
    let steps = steps_of(10);
    let genome = design(100, 2, &[34]);
    let mut r = rng(10);
    let mut seen = Vec::new();
    for _ in 0..2000 {
        let mutated = breeder::mutate_genome(genome, 1, &steps, 0, 255, &mut r);
        let v = mutated.layers_thickness;
        if v != 100 && !seen.contains(&v) {
            seen.push(v);
        }
    }
    seen.sort();
    assert_eq!(seen, vec![90, 95, 105, 110]);
}

#[test]
fn breeder_mutation_stays_within_the_bounds() {
    let steps = steps_of(100);
    let genome = design(100, 2, &[34]);
    let mut r = rng(11);
    for _ in 0..500 {
        let mutated = breeder::mutate_genome(genome, 1, &steps, 90, 120, &mut r);
        let v = mutated.layers_thickness;
        // up: 200 is capped to 120, or 150 is; down: 0 or 50 is redrawn
        assert!(v == 100 || (90..=120).contains(&v));
    }
}

#[test]
fn crossover_breeds_one_child_for_each_parent() {
    let breeder = AgileCrossBreeder;
    let mut r = rng(12);
    for count in 0..6usize {
        let parents: Vec<ParamSet> =
            (0..count).map(|i| ParamSet::nth(i as u64 * 123_456_789_123)).collect();
        let children = breeder.crossover(parents, &mut r);
        assert_eq!(children.len(), count);
    }
}

#[test]
fn crossover_of_one_parent_copies_its_slots() {
    let parent = design(99, 20, &[40, 41, 42]);
    let children = AgileCrossBreeder.crossover(vec![parent], &mut rng(13));
    assert_eq!(children, vec![design(0, 2, &[40, 41, 42])]);
}

#[test]
fn crossover_takes_every_slot_from_some_parent() {
    let a = design(1, 4, &[40, 40, 40, 40, 40, 40, 40, 40, 40, 40]);
    let b = design(2, 6, &[50, 50, 50, 50, 50, 50, 50, 50, 50, 50]);
    let mut r = rng(14);
    let mut from_a = 0;
    let mut from_b = 0;
    for _ in 0..50 {
        let children = AgileCrossBreeder.crossover(vec![a, b], &mut r);
        assert_eq!(children.len(), 2);
        for child in children {
            assert!(child.is_valid());
            assert_eq!(child.layers_thickness, 0);
            assert_eq!(child.partitions_thickness, 2);
            for slot in child.layers {
                match slot {
                    Some(40) => from_a += 1,
                    Some(50) => from_b += 1,
                    other => panic!("slot {:?} is from neither parent", other),
                }
            }
        }
    }
    assert!(from_a > 300 && from_b > 300);
}

#[test]
fn crossover_closes_the_gaps_that_short_parents_leave() {
    let long = design(1, 4, &[40, 41, 42, 43, 44, 45]);
    let short = design(1, 4, &[50]);
    let mut r = rng(15);
    for _ in 0..50 {
        for child in AgileCrossBreeder.crossover(vec![long, short], &mut r) {
            assert!(child.is_valid());
            assert!(child.len() >= 1 && child.len() <= 6);
            let mut last = 0;
            for k in 0..child.len() {
                let code = child.layers[k].unwrap();
                if k == 0 {
                    assert!(code == 40 || code == 50);
                } else {
                    // what comes from the long parent keeps its order
                    assert!(code > last && (41..=45).contains(&code));
                }
                last = if code == 50 { 40 } else { code };
            }
        }
    }
}

#[test]
fn a_draw_within_equal_bounds_is_the_bound() {
    let mut r = rng(30);
    for bound in [0u8, 7, 255] {
        assert_eq!(draw(99, bound, bound, &mut r), bound);
    }
}

#[test]
fn a_draw_stays_below_the_upper_bound() {
    let mut r = rng(31);
    let mut seen = [false; 4];
    for _ in 0..200 {
        let v = draw(99, 10, 14, &mut r);
        assert!((10..14).contains(&v));
        seen[usize::from(v - 10)] = true;
    }
    assert_eq!(seen, [true; 4]);
}

#[test]
fn settle_with_equal_bounds_gives_the_bound() {
    let mut r = rng(32);
    assert_eq!(settle(3, 7, 7, &mut r), 7);
    assert_eq!(settle(7, 7, 7, &mut r), 7);
    assert_eq!(settle(200, 7, 7, &mut r), 7);
}

#[test]
fn random_mutation_with_equal_bounds_writes_the_bound() {
    let genome = design(0, 2, &[34, 34, 34]);
    let mutated = random::mutate_genome(genome, 200, 7, 7, &mut rng(33));
    // every locus has been written by now, and always with 7
    assert_eq!(mutated.layers_thickness, 7);
    assert_eq!(mutated.partitions_thickness, 6);
    assert_eq!(mutated.len(), 7);
    assert_eq!(mutated.layers[0], Some(34));
    assert!(mutated.is_valid());
}

#[test]
fn breeder_mutation_with_equal_bounds_writes_the_bound() {
    let genome = design(100, 20, &[40, 41]);
    let mut r = rng(34);
    for _ in 0..100 {
        let mutated = breeder::mutate_genome(genome, 1, &steps_of(10), 7, 7, &mut r);
        assert!(mutated.is_valid());
        assert!(mutated.layers_thickness == 100 || mutated.layers_thickness == 7);
        assert!(mutated.partitions_thickness == 20 || mutated.partitions_thickness == 6);
        assert!(mutated.len() == 2 || mutated.len() == 7);
    }
}

#[test]
fn no_mutations_give_the_design_back_whatever_the_bounds() {
    let genome = ParamSet::nth(55_555);
    for (min_value, max_value) in [(7, 7), (0, 255), (9, 7), (255, 0)] {
        let mut r = rng(35);
        assert_eq!(random::mutate_genome(genome, 0, min_value, max_value, &mut r), genome);
        let same = breeder::mutate_genome(genome, 0, &steps_of(1), min_value, max_value, &mut r);
        assert_eq!(same, genome);
    }
}

#[test]
fn mutation_keeps_sound_codes_even_where_slots_have_gaps() {
    let mut genome = design(0, 5, &[40, 41, 42, 43]);
    genome.layers[1] = None;
    let mut r = rng(36);
    for _ in 0..200 {
        let mutated = random::mutate_genome(genome, 5, 0, 255, &mut r);
        assert!(raw_codes_are_sound(&mutated));
        let bred = breeder::mutate_genome(genome, 5, &steps_of(30), 0, 255, &mut r);
        assert!(raw_codes_are_sound(&bred));
    }
}

#[test]
fn mutation_keeps_a_usable_partition_thickness_even_where_codes_are_low() {
    let genome = design(0, 15, &[3, 4]);
    let mut r = rng(37);
    for _ in 0..200 {
        let mutated = random::mutate_genome(genome, 5, 0, 255, &mut r);
        assert!(agile::paramset::PARTITION_THICKNESSES.contains(&mutated.partitions_thickness));
    }
}
