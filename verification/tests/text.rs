use agile::paramset::ParamSet;

fn design(layers_thickness: u8, partitions_thickness: u8, codes: &[u8]) -> ParamSet {
    let mut layers = [None; 10];
    for (i, c) in codes.iter().enumerate() {
        layers[i] = Some(*c);
    }
    ParamSet { layers_thickness, partitions_thickness, layers }
}

fn with_real_numbers(p: &ParamSet) -> String {
    let layers_mm = f64::from(p.layers_thickness) * 0.1 + 3.0;
    let parts_mm = f64::from(p.partitions_thickness) * 0.1;
    let mut text = format!("layer:{layers_mm:.02}mm part:{parts_mm:.02}mm  | ");
    for ri in p.layers.iter().map_while(|ri| *ri) {
        let ri = f64::from(ri) * 0.01 + 0.99;
        text += &format!("{ri:.02} ");
    }
    text + "|"
}

#[test]
fn the_first_design_in_words() {
    assert_eq!(ParamSet::nth(0).render(), "layer:3.00mm part:0.20mm  | 1.33 |");
}

#[test]
fn the_last_design_in_words() {
    assert_eq!(
        ParamSet::nth(ParamSet::MAX_POSSIBILITIES).render(),
        "layer:28.50mm part:3.00mm  | 1.50 1.50 1.50 1.50 1.50 1.50 1.50 1.50 1.50 1.50 |"
    );
}

#[test]
fn a_design_without_layers_in_words() {
    assert_eq!(design(7, 15, &[]).render(), "layer:3.70mm part:1.50mm  | |");
}

#[test]
fn words_stop_at_the_first_absent_slot() {
    let mut p = design(100, 10, &[34, 40, 51]);
    p.layers[1] = None;
    assert_eq!(p.render(), "layer:13.00mm part:1.00mm  | 1.33 |");
}

#[test]
fn words_agree_with_real_arithmetic() {
    for thickness in 0..=255u8 {
        let p = design(thickness, thickness, &[thickness.max(1), 34, 255, 1, 100]);
        assert_eq!(p.render(), with_real_numbers(&p));
    }
}
