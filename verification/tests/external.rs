use goose_mobile::external::{is_web_url, open_external_script, open_script};

#[test]
fn only_web_addresses_are_handed_out() {
    assert!(is_web_url("https://github.com/me/notes/pull/12"));
    assert!(is_web_url("http://localhost:4300/x"));
    assert!(is_web_url("HTTPS://github.com/me/notes/pull/12"));

    assert!(!is_web_url("javascript:fetch('/settings')"));
    assert!(!is_web_url("file:///etc/passwd"));
    assert!(!is_web_url("data:text/html,<script>x()</script>"));
    assert!(!is_web_url("github.com/me/notes/pull/12"));
    assert!(!is_web_url(""));
}

#[test]
fn the_script_carries_the_url_as_a_json_literal() {
    let script = open_external_script("  https://github.com/o'brien/x  ").unwrap();
    assert!(script.starts_with("(() => { const u = \"https://github.com/o'brien/x\";"));
    assert!(script.ends_with("a.click(); a.remove(); })();"));
    assert_eq!(script, open_script("\"https://github.com/o'brien/x\""));
    assert_eq!(open_external_script("javascript:alert(1)"), None);
}

#[test]
fn quotes_backslashes_and_controls_are_escaped_in_the_literal() {
    let script = open_external_script("https://x/a\"b\\c\u{1}d\te\u{1f}").unwrap();
    assert_eq!(script, open_script("\"https://x/a\\\"b\\\\c\\u0001d\\te\\u001f\""));
}
