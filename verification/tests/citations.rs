use goose_mobile::citations::{
    all_citations, broken_citations, citation_count, cited_paths, close_up_wraps, comment_lines,
    comments_of, covers, Citation,
};

#[test]
fn a_block_comment_is_read_across_every_line_it_spans() {
    let css = "/* one\n * assets/desktop/50-band.css\n */\n.x { color: red }\n";
    let lines = comment_lines(css, false);
    assert_eq!(lines.len(), 3, "a three-line block is three lines of comment");
    assert_eq!(lines.get(1).map(|(at, _)| *at), Some(2), "the number is the file's, not the comment's");
    assert!(comment_lines(".x { color: red }\n", false).is_empty(), "a declaration is not a comment");
}

#[test]
fn a_slash_comment_is_rust_and_javascript_and_not_css() {
    let source = "let x = 1; // docs/audit.js\n";
    assert_eq!(
        comment_lines(source, true).first().map(|(_, text)| text.trim().to_owned()),
        Some("docs/audit.js".to_owned()),
        "a trailing comment is comment text"
    );
    assert!(
        comment_lines(source, false).is_empty(),
        "`//` is not a comment in CSS, and reading it as one would scan a URL"
    );
}

#[test]
fn a_citation_that_wrapped_is_one_citation() {
    let wrapped = vec![
        (10, "/ the case (docs/permission-".to_owned()),
        (11, "/ durability.md section 0)".to_owned()),
    ];
    let joined = close_up_wraps(&wrapped);
    assert_eq!(joined.first().map(|(at, _)| *at), Some(10), "the line reported is the first of the pair");
    assert_eq!(
        joined.first().map(|(_, text)| cited_paths(text)).unwrap_or_default(),
        vec!["docs/permission-durability.md".to_owned()],
        "the halves close up the way the reader's eye closes them"
    );
}

#[test]
fn a_path_is_taken_without_the_punctuation_around_it() {
    assert_eq!(
        cited_paths("see `src/state.rs:557` and src/nav.rs."),
        vec!["src/state.rs".to_owned(), "src/nav.rs".to_owned()],
        "a line number and a full stop are the sentence's, not the path's"
    );
    assert_eq!(
        cited_paths("every src/views/*.rs is shared"),
        vec!["src/views".to_owned()],
        "a glob resolves to the directory it globs, which is the real claim"
    );
    assert_eq!(
        cited_paths("crates/goose-acp-client/src/lib.rs"),
        vec!["crates/goose-acp-client/src/lib.rs".to_owned()],
        "the inner `src/` is part of the whole and not a second citation"
    );
    assert!(
        cited_paths("no paths here, just prose about assets and docs").is_empty(),
        "a root word without a slash is prose"
    );
}

#[test]
fn a_root_inside_a_word_is_not_a_citation() {
    assert!(cited_paths("ésrc/app.rs").is_empty(), "a letter before the root makes it a word");
    assert!(cited_paths("my-src/app.rs").is_empty());
    assert_eq!(cited_paths("(src/app.rs)"), vec!["src/app.rs".to_owned()]);
    assert!(cited_paths("src/").is_empty(), "a bare root names nothing");
}

#[test]
fn a_line_ending_in_a_dash_with_nothing_after_it_stays_as_it_is() {
    let lines = vec![(3, "see docs/permission-".to_owned())];
    let joined = close_up_wraps(&lines);
    assert_eq!(joined, vec![(3, "see docs/permission-".to_owned())]);
}

#[test]
fn the_extension_decides_whether_slashes_open_a_comment() {
    let source = "a { b: url(//docs/x.js) } /* src/app.rs */\n";
    let as_css = comments_of("assets/x.css", source);
    assert_eq!(as_css.len(), 1);
    assert_eq!(as_css[0].1.trim(), "src/app.rs");
    let as_upper_css = comments_of("assets/X.CSS", source);
    assert_eq!(as_upper_css.len(), 1);
    let as_rust = comments_of("src/x.rs", "let u = 1; // docs/audit.js\n");
    assert_eq!(as_rust.len(), 1);
    assert!(comments_of("assets/x.css", "let u = 1; // docs/audit.js\n").is_empty());
}

#[test]
fn the_scan_lists_every_citation_and_keeps_the_broken_ones() {
    let files = vec![
        ("src/a.rs".to_owned(), "// see src/b.rs and docs/gone.md\nfn main() {}\n".to_owned()),
        ("assets/x.css".to_owned(), "/* assets/y.css */\n".to_owned()),
    ];
    let all = all_citations(&files);
    assert_eq!(citation_count(&files), 3);
    assert_eq!(
        all,
        vec![
            Citation { file: "src/a.rs".to_owned(), line: 1, path: "src/b.rs".to_owned() },
            Citation { file: "src/a.rs".to_owned(), line: 1, path: "docs/gone.md".to_owned() },
            Citation { file: "assets/x.css".to_owned(), line: 1, path: "assets/y.css".to_owned() },
        ]
    );
    let broken = broken_citations(&files, &vec![true, false, true]);
    assert_eq!(broken.len(), 1);
    assert!(covers(&broken[0], "src/a.rs", "docs/gone.md"));
    assert!(!covers(&broken[0], "src/a.rs", "src/b.rs"));
}
