use goose_mobile::css::{split_declaration, without_comments};

#[test]
fn only_a_real_declaration_is_read_as_one() {
    assert_eq!(
        split_declaration("  --accent :  #13bbaf "),
        Some(("--accent".to_owned(), "#13bbaf".to_owned())),
        "a declaration with slack around it is still a declaration"
    );
    assert_eq!(
        split_declaration("--text-code: min(var(--text-xs), 20px)"),
        Some(("--text-code".to_owned(), "min(var(--text-xs),20px)".to_owned())),
        "a value with its own spaces must survive as one string"
    );
    for not_a_declaration in [
        "@media (max-width: 900px)",
        "url(data:image/svg+xml,x)",
        ": #13bbaf",
        "--accent",
        "  ",
    ] {
        assert_eq!(
            split_declaration(not_a_declaration),
            None,
            "`{not_a_declaration}` is not a declaration and must not be read as one"
        );
    }
}

#[test]
fn comments_go_and_the_rules_stay() {
    assert_eq!(without_comments(".a { b: c } /* x } y */ .d { e: f }"), ".a { b: c }  .d { e: f }");
    assert_eq!(without_comments("/* one */a/* two */b"), "ab");
    assert_eq!(without_comments("a /* never closes"), "a ");
    assert_eq!(without_comments("no comment"), "no comment");
}
