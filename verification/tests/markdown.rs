use goose_mobile::markdown::{
    escape_text, image_label, open_fence, screen_all, screen_event, strip_frontmatter, to_html,
    Emit, EventClass, Screened,
};

#[test]
fn frontmatter_goes_and_the_body_stays() {
    let source = "---\nname: deploy\ndescription: Ship it\n---\n\n# Deploy\n\nRun it.";
    assert_eq!(strip_frontmatter(source), "# Deploy\n\nRun it.");
}

#[test]
fn a_document_without_frontmatter_is_untouched() {
    let source = "# Deploy\n\nRun it.";
    assert_eq!(strip_frontmatter(source), source);
}

#[test]
fn an_unterminated_block_is_left_alone() {
    let source = "---\nname: deploy\n\n# Deploy\n";
    assert_eq!(strip_frontmatter(source), source);
}

#[test]
fn a_leading_horizontal_rule_survives() {
    let source = "---\n\nA rule, then prose.\n";
    assert_eq!(strip_frontmatter(source), source);
    assert_eq!(strip_frontmatter("----\nstuff\n"), "----\nstuff\n");
}

#[test]
fn crlf_frontmatter_is_recognised() {
    assert_eq!(strip_frontmatter("---\r\nname: deploy\r\n---\r\n# Deploy\r\n"), "# Deploy\r\n");
}

#[test]
fn the_fence_must_be_exactly_three_dashes_and_a_line_end() {
    assert_eq!(open_fence("---\nbody"), Some("body"));
    assert_eq!(open_fence("---\r\nbody"), Some("body"));
    assert_eq!(open_fence("----\nbody"), None);
    assert_eq!(open_fence("---"), None);
}

#[test]
fn text_is_escaped_for_html() {
    assert_eq!(escape_text("a < b && \"c\" > d"), "a &lt; b &amp;&amp; &quot;c&quot; &gt; d");
    assert_eq!(escape_text("it's fine"), "it's fine");
}

#[test]
fn raw_html_is_text_and_an_image_is_its_address() {
    assert_eq!(screen_event(EventClass::Html, false), (Screened::AsText, false));
    assert_eq!(screen_event(EventClass::InlineHtml, true), (Screened::AsText, true));
    assert_eq!(screen_event(EventClass::ImageStart, false), (Screened::ImageLabel, true));
    assert_eq!(screen_event(EventClass::Other, true), (Screened::Drop, true));
    assert_eq!(screen_event(EventClass::ImageEnd, true), (Screened::Drop, false));
    assert_eq!(screen_event(EventClass::Other, false), (Screened::Keep, false));
    assert_eq!(image_label("https://x/y.png"), "[image: https://x/y.png]");
}

#[test]
fn raw_html_in_a_bubble_is_shown_as_text() {
    let html = to_html("Hello <script>alert(1)</script> there\n\n<div onclick=\"x()\">block</div>\n");
    assert!(!html.contains("<script>"), "{html}");
    assert!(!html.contains("<div"), "{html}");
    assert!(html.contains("&lt;script&gt;"), "{html}");
    assert!(html.contains("&lt;div"), "{html}");
}

#[test]
fn an_image_is_its_address_and_its_alt_text_is_gone() {
    let html = to_html("See ![a cat](https://example.com/cat.png) here");
    assert!(!html.contains("<img"), "{html}");
    assert!(html.contains("[image: https://example.com/cat.png]"), "{html}");
    assert!(!html.contains("a cat"), "{html}");
}

#[test]
fn ordinary_markdown_renders_as_markdown() {
    assert_eq!(to_html("# Title\n\n*em* and ~~gone~~"), "<h1>Title</h1>\n<p><em>em</em> and <del>gone</del></p>\n");
    let table = to_html("| a | b |\n|---|---|\n| 1 | 2 |\n");
    assert!(table.contains("<table>"), "{table}");
}

#[test]
fn the_plan_screens_each_event_in_order() {
    let events = vec![
        (EventClass::Html, "<b>".to_string()),
        (EventClass::ImageStart, "u.png".to_string()),
        (EventClass::Other, String::new()),
        (EventClass::ImageEnd, String::new()),
        (EventClass::Other, String::new()),
        (EventClass::InlineHtml, "<i>".to_string()),
    ];
    assert_eq!(
        screen_all(&events),
        [
            Emit::Text("<b>".to_string()),
            Emit::Text("[image: u.png]".to_string()),
            Emit::Drop,
            Emit::Drop,
            Emit::Keep,
            Emit::Text("<i>".to_string()),
        ]
    );
}
