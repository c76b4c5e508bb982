use goose_mobile::inherit::{
    attribute_value, compound_classes, decided_classes, selectors, split_top, styled_classes,
    subject_of, subjects_of, without_items_under, desktop_code, classes_written, rendered_classes,
};

fn classes(selector: &str) -> Vec<String> {
    let mut out = Vec::new();
    for one in split_top(selector, ',') {
        compound_classes(&subject_of(&one), &mut out);
    }
    out
}

#[test]
fn only_the_subject_of_a_selector_is_a_decision_about_it() {
    assert_eq!(classes(".btn.primary"), ["btn", "primary"]);
    assert_eq!(classes(".pane .topbar > .conn-badge"), ["conn-badge"]);
    assert_eq!(classes(".pane-main .scroll:not(.diff)"), ["scroll"]);
    assert_eq!(
        classes(".pane-main:has(.scroll.diff) .topbar"),
        ["topbar"],
        ":has() is a question about a descendant, not a claim about it"
    );
    assert_eq!(
        classes(".nav-row:is(.on, :hover) :is(.nav-row-sub, .nav-row-age)"),
        ["nav-row-age", "nav-row-sub"]
    );
    assert_eq!(classes(".insp-chip.off > i"), Vec::<String>::new());
    assert_eq!(classes(".a::before, .b:hover, .c[data-x=\".notaclass\"]"), ["a", "b", "c"]);
    assert_eq!(classes(".a > "), ["a"]);
    assert_eq!(classes(".a:is(.b"), ["a"]);
    assert_eq!(attribute_value("\"nav-row\""), "\"nav-row\"");
}

#[test]
fn the_selector_walk_reads_nested_rules_and_ignores_strings() {
    let css = "@media (min-width: 900px) { .pane { gap: 1rem } }\n\
               .x { content: \"} .not-a-rule {\" }\n\
               @keyframes spin { from { opacity: 0 } }\n\
               .y, .z > .w { color: red }";
    assert_eq!(selectors(css), [".pane", ".x", "from", ".y, .z > .w"]);
    assert_eq!(subjects_of(css), ["pane", "w", "x", "y"]);
}

#[test]
fn an_attribute_value_ends_at_its_comma_or_its_element() {
    assert_eq!(attribute_value(" \"a b\", onclick: x"), " \"a b\"");
    assert_eq!(attribute_value(" if on { \"x on\" } else { \"x\" }, y"), " if on { \"x on\" } else { \"x\" }");
    assert_eq!(attribute_value(" value_class(a, b) }"), " value_class(a, b) ");
    assert_eq!(attribute_value(" \"a,b\" }"), " \"a,b\" ");
}

#[test]
fn a_comma_inside_a_group_does_not_split() {
    assert_eq!(split_top(".a:is(.b, .c), .d", ','), [".a:is(.b, .c)", " .d"]);
    assert_eq!(split_top("[x=\",\"], .y", ','), ["[x=\",\"]", " .y"]);
    assert_eq!(split_top(" , ", ','), Vec::<String>::new());
}

#[test]
fn the_sheets_decide_by_subject() {
    let shared = ".pane .topbar { a: b } .btn.primary { c: d }";
    assert_eq!(styled_classes(shared), ["btn", "primary", "topbar"]);
    let parts = vec![
        ("00-a.css".to_owned(), ".x { a: b }".to_owned()),
        ("10-b.css".to_owned(), ".y > .x, .z { a: b } /* .w { } */".to_owned()),
    ];
    assert_eq!(decided_classes(&parts), ["x", "z"]);
}

fn test_attr() -> String {
    format!("#[{}(test)]", "cfg")
}

fn phone_attr() -> String {
    format!("#[{}(any(target_os = \"ios\", target_os = \"android\"))]", "cfg")
}

#[test]
fn the_cut_removes_a_top_level_item_and_nothing_after_it() {
    let code = format!(
        "fn a() {{}}\n{}\nmod tests {{\n    fn t() {{ '{{'; }}\n}}\nfn b() {{}}\n{}\nuse x::y;\nfn c() {{}}",
        test_attr(),
        test_attr()
    );
    assert_eq!(without_items_under(&code, &test_attr()), "fn a() {}\nfn b() {}\nfn c() {}");
    assert_eq!(without_items_under("fn a() {}\n", &test_attr()), "fn a() {}");
    assert_eq!(without_items_under("", &test_attr()), "");
}

#[test]
fn desktop_code_drops_prose_tests_and_the_phones_items() {
    let source = format!(
        "// quoting {} in prose\nfn a() {{ class: \"x\" }}\n{}\nfn phone() {{\n    class: \"p\"\n}}\n{}\nmod tests {{\n}}\nfn b() {{}}",
        test_attr(),
        phone_attr(),
        test_attr()
    );
    assert_eq!(desktop_code("a.rs", &source), "fn a() { class: \"x\" }\nfn b() {}");
}

#[test]
fn both_arms_of_a_class_value_are_read_and_interpolation_is_skipped() {
    let code = "div { class: if on { \"nav-row on\" } else { \"nav-row\" }, id: \"no\" }\n\
                span { class: \"insp-step-dot {step.dot}\" }\n\
                b { class: value_class(a, b) }";
    assert_eq!(classes_written(code), ["nav-row", "on", "nav-row", "insp-step-dot"]);
    assert_eq!(classes_written("no classes here"), Vec::<String>::new());
}

#[test]
fn a_rendered_class_is_credited_to_the_first_file_that_writes_it() {
    let files = vec![
        ("a.rs".to_owned(), "x { class: \"pane topbar\" }".to_owned()),
        ("b.rs".to_owned(), format!("y {{ class: \"topbar btn\" }}\n{}\nmod t {{\n    z {{ class: \"only-tests\" }}\n}}", test_attr())),
    ];
    let got = rendered_classes(&files);
    let want: Vec<(String, String)> = vec![
        ("btn".to_owned(), "b.rs".to_owned()),
        ("pane".to_owned(), "a.rs".to_owned()),
        ("topbar".to_owned(), "a.rs".to_owned()),
    ];
    assert_eq!(got, want);
}
