use goose_mobile::icons::{icon_entries, path_for, STROKE};

#[test]
fn every_arm_in_the_table_resolves_to_a_path() {
    let arms = icon_entries();
    assert!(arms.len() > 40, "only {} arms in the table", arms.len());
    for (name, _) in &arms {
        let d = path_for(name).unwrap_or_default();
        assert!(!d.is_empty(), "{name} resolves to nothing");
        assert!(d.starts_with(['M', 'm']), "{name} does not begin with a move: {d}");
    }
    assert!(path_for("no-such-icon").is_none());
}

#[test]
fn the_stroke_is_the_mockups_median_weight_rescaled_to_this_grid() {
    let stroke: f64 = STROKE.parse().unwrap_or_default();
    let ink_per_px = stroke / 24.0;
    assert!((ink_per_px - 1.5 / 16.0).abs() < 1e-12, "{STROKE} on a 24 grid is {ink_per_px} of ink per px");
    assert!(ink_per_px > 1.4 / 16.0, "lighter than the mockups' floor");
    assert!(ink_per_px < 1.7 / 16.0, "heavier than the mockups' ceiling");
}

#[test]
fn each_name_has_its_own_glyph() {
    assert_eq!(path_for("plus"), Some("M12 5v14M5 12h14"));
    assert_eq!(path_for("stop"), Some("M7 7h10v10H7z"));
    assert_eq!(path_for("Plus"), None);
    let arms = icon_entries();
    let mut names: Vec<&str> = arms.iter().map(|(n, _)| *n).collect();
    names.sort();
    names.dedup();
    assert_eq!(names.len(), arms.len(), "two arms share a name");
}
