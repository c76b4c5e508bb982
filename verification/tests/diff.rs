use goose_mobile::diff::{
    between, blocks, expand_to, fingerprint, gaps, parse, split_path, Block, DiffLine, Gap,
    LineKind, PAIR_BUDGET, RENDER_CAP,
};
use std::collections::HashMap;

const JSDIFF: &str = "Index: src/app.ts\n\
    ===================================================================\n\
    --- src/app.ts\t\n\
    +++ src/app.ts\t\n\
    @@ -1,5 +1,6 @@\n\
    \x20line one\n\
    -line two\n\
    +CHANGED\n\
    \x20line three\n\
    \x20line four\n\
    \x20line five\n\
    +line six\n";

const GIT_SHAPED: &str = "--- a/README.md\n\
    +++ b/README.md\n\
    @@ -1 +1,3 @@\n\
    -old\n\
    +new line one\n\
    +new line two\n\
    +new line three\n";

fn numbered(word: &str, n: usize) -> String {
    let mut out = String::new();
    for i in 0..n {
        out.push_str(word);
        out.push(' ');
        out.push_str(&i.to_string());
        out.push('\n');
    }
    out
}

fn kinds(lines: &[DiffLine]) -> Vec<LineKind> {
    lines.iter().map(|l| l.kind).collect()
}

fn synth(changed_at: &[usize], total: usize) -> Vec<DiffLine> {
    (0..total)
        .map(|i| DiffLine {
            kind: if changed_at.contains(&i) { LineKind::Add } else { LineKind::Context },
            old_no: u32::try_from(i).unwrap_or(0) + 1,
            new_no: u32::try_from(i).unwrap_or(0) + 1,
            text: format!("line {i}"),
            no_newline: false,
        })
        .collect()
}

#[test]
fn skips_the_jsdiff_preamble_and_numbers_both_sides() {
    let lines = parse(JSDIFF);
    assert_eq!(
        kinds(&lines),
        vec![
            LineKind::Context,
            LineKind::Del,
            LineKind::Add,
            LineKind::Context,
            LineKind::Context,
            LineKind::Context,
            LineKind::Add,
        ]
    );
    assert_eq!(lines[0].text, "line one");
    assert_eq!((lines[1].old_no, lines[1].new_no), (2, 0));
    assert_eq!((lines[2].old_no, lines[2].new_no), (0, 2));
    assert_eq!((lines[3].old_no, lines[3].new_no), (3, 3));
    assert_eq!((lines[6].old_no, lines[6].new_no), (0, 6));
}

#[test]
fn takes_a_git_shaped_preamble_too() {
    let lines = parse(GIT_SHAPED);
    assert_eq!(kinds(&lines), vec![LineKind::Del, LineKind::Add, LineKind::Add, LineKind::Add]);
    assert_eq!(lines[0].text, "old");
    assert_eq!(lines[3].new_no, 3);
}

#[test]
fn an_added_file_starts_the_new_side_at_one() {
    let lines = parse("@@ -0,0 +1,2 @@\n+first\n+second\n");
    assert_eq!(lines[0].new_no, 1);
    assert_eq!(lines[1].new_no, 2);
    assert_eq!(lines[0].old_no, 0);
}

#[test]
fn a_deleted_file_starts_the_old_side_at_one() {
    let lines = parse("@@ -1,2 +0,0 @@\n-first\n-second\n");
    assert_eq!((lines[0].old_no, lines[0].new_no), (1, 0));
    assert_eq!((lines[1].old_no, lines[1].new_no), (2, 0));
}

#[test]
fn no_newline_marker_annotates_rather_than_becoming_a_row() {
    let lines =
        parse("@@ -1 +1 @@\n-old\n\\ No newline at end of file\n+new\n\\ No newline at end of file\n");
    assert_eq!(lines.len(), 2);
    assert!(lines[0].no_newline);
    assert!(lines[1].no_newline);
}

#[test]
fn an_empty_context_line_is_a_line() {
    let lines = parse("@@ -1,3 +1,3 @@\n a\n\n-b\n+c\n");
    assert_eq!(kinds(&lines)[..2], [LineKind::Context, LineKind::Context]);
    assert_eq!(lines[1].text, "");
}

#[test]
fn a_patch_with_no_hunk_yields_nothing() {
    assert!(parse("").is_empty());
    assert!(parse("Index: assets/icon.png\n").is_empty());
}

#[test]
fn a_short_run_of_context_is_not_worth_hiding() {
    assert_eq!(gaps(&synth(&[0, 7], 20)), vec![Gap { start: 11, len: 9 }]);
    assert_eq!(gaps(&synth(&[0, 13], 40)), vec![Gap { start: 17, len: 23 }]);
}

#[test]
fn a_long_run_of_context_collapses_with_context_either_side() {
    let lines = synth(&[10, 200], 300);
    let gaps = gaps(&lines);
    assert_eq!(
        gaps,
        vec![
            Gap { start: 0, len: 7 },
            Gap { start: 14, len: 183 },
            Gap { start: 204, len: 96 },
        ]
    );
    let rendered = blocks(&lines, &gaps, &HashMap::new());
    assert_eq!(
        rendered.blocks,
        vec![
            Block::Gap { key: 0, hidden: 7, at: 1 },
            Block::Rows { start: 7, end: 14 },
            Block::Gap { key: 14, hidden: 183, at: 15 },
            Block::Rows { start: 197, end: 204 },
            Block::Gap { key: 204, hidden: 96, at: 205 },
        ]
    );
    assert_eq!(rendered.dropped, 0);
}

#[test]
fn expanding_a_band_gives_lines_back_from_both_ends() {
    let lines = synth(&[10, 200], 300);
    let gaps = gaps(&lines);
    let expanded = HashMap::from([(14_usize, 20_usize)]);
    let rendered = blocks(&lines, &gaps, &expanded);
    assert!(rendered.blocks.contains(&Block::Rows { start: 7, end: 24 }));
    assert!(rendered.blocks.contains(&Block::Gap { key: 14, hidden: 163, at: 25 }));
    assert!(rendered.blocks.contains(&Block::Rows { start: 187, end: 204 }));
}

#[test]
fn a_fully_expanded_band_disappears() {
    let lines = synth(&[10, 200], 300);
    let gaps = gaps(&lines);
    let expanded = HashMap::from([(14_usize, 1000_usize)]);
    let rendered = blocks(&lines, &gaps, &expanded);
    assert!(!rendered.blocks.iter().any(|b| matches!(b, Block::Gap { key: 14, .. })));
    assert!(rendered.blocks.contains(&Block::Rows { start: 7, end: 204 }));
}

#[test]
fn the_render_cap_truncates_and_says_how_much_it_took() {
    let total = RENDER_CAP + 250;
    let lines = synth(&(0..total).collect::<Vec<_>>(), total);
    let rendered = blocks(&lines, &gaps(&lines), &HashMap::new());
    assert_eq!(rendered.blocks, vec![Block::Rows { start: 0, end: RENDER_CAP }]);
    assert_eq!(rendered.dropped, 250);
}

#[test]
fn a_patch_with_no_changes_at_all_collapses_whole() {
    let lines = synth(&[], 50);
    let rendered = blocks(&lines, &gaps(&lines), &HashMap::new());
    assert_eq!(rendered.blocks, vec![Block::Gap { key: 0, hidden: 50, at: 1 }]);
}

#[test]
fn the_mark_is_pinned_to_the_bytes_that_were_reviewed() {
    assert_eq!(fingerprint(JSDIFF), fingerprint(JSDIFF));
    assert_ne!(fingerprint(JSDIFF), fingerprint(GIT_SHAPED));
    assert_ne!(fingerprint(""), fingerprint(" "));
}

#[test]
fn the_fingerprint_is_fnv1a_of_the_bytes() {
    assert_eq!(fingerprint(""), 0xcbf2_9ce4_8422_2325);
    assert_eq!(fingerprint("a"), 0xaf63_dc4c_8601_ec8c);
}

#[test]
fn the_filename_is_split_off_the_directory() {
    assert_eq!(split_path("src/views/code.rs"), ("src/views/", "code.rs"));
    assert_eq!(split_path("README.md"), ("", "README.md"));
}

#[test]
fn a_tap_opens_a_small_band_whole_and_a_big_one_by_a_step() {
    assert_eq!(expand_to(0, 40), 40);
    assert_eq!(expand_to(0, 41), 20);
    assert_eq!(expand_to(20, 100), 40);
}

#[test]
fn both_halves_of_an_edit_become_rows_in_file_order() {
    let lines = between(
        "fn tick() {\n    sleep(1);\n}\n",
        "fn tick() {\n    sleep(2);\n    log(\"tick\");\n}\n",
    );
    assert_eq!(
        kinds(&lines),
        vec![LineKind::Context, LineKind::Del, LineKind::Add, LineKind::Add, LineKind::Context],
        "the edit did not come out as one deletion, two additions and the \
         two lines that did not move"
    );
    assert_eq!(lines[1].text, "    sleep(1);");
    assert_eq!(lines[2].text, "    sleep(2);");
    assert_eq!((lines[1].old_no, lines[1].new_no), (2, 0));
    assert_eq!((lines[2].old_no, lines[2].new_no), (0, 2));
    assert_eq!((lines[4].old_no, lines[4].new_no), (3, 4));
}

#[test]
fn an_absent_half_is_a_whole_file_added_or_removed() {
    assert_eq!(kinds(&between("", "fn main() {}\n")), vec![LineKind::Add]);
    assert_eq!(kinds(&between("gone\naway\n", "")), vec![LineKind::Del, LineKind::Del]);
    assert!(between("", "").is_empty(), "two empty halves are not an edit and must not draw a slab");
    assert_eq!(
        kinds(&between("same\n", "same\n")),
        vec![LineKind::Context],
        "a diff that changed nothing is still the file, all context"
    );
}

#[test]
fn the_matching_ends_are_trimmed_before_anything_is_paired() {
    let old = "x\nx\nx\nx\n";
    let new = "x\nx\n";
    assert_eq!(
        kinds(&between(old, new)),
        vec![LineKind::Context, LineKind::Context, LineKind::Del, LineKind::Del],
        "the head and the tail overlapped and lines were emitted twice"
    );
    let long = numbered("line", 40);
    let edited = long.replace("line 20\n", "LINE 20\n");
    let lines = between(&long, &edited);
    assert_eq!(lines.len(), 41, "a one-line edit produced {} rows", lines.len());
    assert_eq!(
        lines.iter().filter(|l| l.changed()).count(),
        2,
        "one line changed, so exactly one deletion and one addition"
    );
}

#[test]
fn a_rewrite_too_big_to_pair_comes_out_as_a_rewrite() {
    let side = 501;
    assert!(side * side > PAIR_BUDGET);
    let old = numbered("old", side);
    let new = numbered("new", side);
    let lines = between(&old, &new);
    assert_eq!(lines.len(), side * 2);
    assert!(
        lines[..side].iter().all(|l| l.kind == LineKind::Del)
            && lines[side..].iter().all(|l| l.kind == LineKind::Add),
        "the fallback interleaved instead of writing every removal then \
         every addition"
    );
}

#[test]
fn the_screens_own_collapse_reads_these_rows() {
    let long = numbered("line", 60);
    let edited = long.replace("line 30\n", "LINE 30\n");
    let lines = between(&long, &edited);
    let gaps = gaps(&lines);
    assert_eq!(gaps.len(), 2, "one change in the middle of a long file has a run to collapse on each side of it");
    let rendered = blocks(&lines, &gaps, &HashMap::new());
    assert!(
        rendered.blocks.iter().any(|b| matches!(b, Block::Gap { .. })),
        "the collapse produced no band: {:?}",
        rendered.blocks
    );
}

#[test]
fn reading_the_rows_by_side_gives_back_both_texts() {
    let old = "a\nb\nc\nd\n";
    let new = "a\nc\nx\nd\ne\n";
    let lines = between(old, new);
    let old_side: Vec<&str> =
        lines.iter().filter(|l| l.kind != LineKind::Add).map(|l| l.text.as_str()).collect();
    let new_side: Vec<&str> =
        lines.iter().filter(|l| l.kind != LineKind::Del).map(|l| l.text.as_str()).collect();
    assert_eq!(old_side, ["a", "b", "c", "d"]);
    assert_eq!(new_side, ["a", "c", "x", "d", "e"]);
    let old_numbers: Vec<u32> = lines.iter().filter(|l| l.kind != LineKind::Add).map(|l| l.old_no).collect();
    assert_eq!(old_numbers, [1, 2, 3, 4]);
    let contexts = lines.iter().filter(|l| l.kind == LineKind::Context).count();
    assert_eq!(contexts, 3, "a, c and d are the longest run the two texts share");
}

#[test]
fn an_edit_keeps_as_many_lines_as_the_texts_share_in_order() {
    // x, one of a/b, y is the longest run the two texts share
    let rows = between("x\na\nb\ny\n", "x\nb\na\ny\n");
    let context = rows.iter().filter(|l| l.kind == LineKind::Context).count();
    assert_eq!(context, 3);
    let rows = between("p\nq\nr\ns\n", "q\ns\np\n");
    let context = rows.iter().filter(|l| l.kind == LineKind::Context).count();
    assert_eq!(context, 2);
}
