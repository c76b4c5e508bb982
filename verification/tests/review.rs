use goose_mobile::review::{marks_to_view, DiffFile, DiffState, FileDiff};

fn file(path: &str, patch: &str, additions: u32, deletions: u32) -> DiffFile {
    DiffFile::from(FileDiff { file: path.to_owned(), patch: patch.to_owned(), additions, deletions })
}

fn state() -> DiffState {
    let mut s = DiffState::new();
    s.files.push(file("src/a.rs", "@@ -1,2 +1,2 @@\n-old\n+new\n same", 1, 1));
    s.files.push(file("src/b.rs", "@@ -1 +1,2 @@\n keep\n+added", 1, 0));
    s
}

#[test]
fn a_file_is_parsed_once_and_fingerprinted() {
    let f = file("src/a.rs", "@@ -1,2 +1,2 @@\n-old\n+new\n same", 1, 1);
    assert_eq!(f.lines.len(), 3, "the hunk header is not a row");
    let g = file("src/a.rs", "@@ -1,2 +1,2 @@\n-old\n+newer\n same", 1, 1);
    assert_ne!(f.fingerprint, g.fingerprint, "a different patch is a different review");
}

#[test]
fn marking_a_file_reviewed_folds_it_and_clearing_opens_it() {
    let mut s = state();
    let a_fp = s.files[0].fingerprint;
    assert!(!s.is_seen(&s.files[0]));
    assert!(s.is_open(&s.files[0]), "an unreviewed file starts open");
    s.toggle_seen("src/a.rs", a_fp);
    assert!(s.is_seen(&s.files[0]));
    assert!(!s.is_open(&s.files[0]), "marking folds the card");
    assert_eq!(s.reviewed(), 1);
    s.toggle_seen("src/a.rs", a_fp);
    assert!(!s.is_seen(&s.files[0]));
    assert!(s.is_open(&s.files[0]), "clearing the mark opens it again");
    assert_eq!(s.reviewed(), 0);
}

#[test]
fn a_mark_on_an_older_patch_is_not_a_review_of_this_one() {
    let mut s = state();
    s.toggle_seen("src/a.rs", 12345);
    assert!(!s.is_seen(&s.files[0]));
    assert_eq!(s.reviewed(), 0);
}

#[test]
fn a_card_opens_and_folds_without_touching_its_mark() {
    let mut s = state();
    s.toggle_file("src/b.rs");
    assert!(!s.is_open(&s.files[1]));
    s.toggle_file("src/b.rs");
    assert!(s.is_open(&s.files[1]));
    assert!(!s.is_seen(&s.files[1]));
    s.toggle_file("src/none.rs");
    assert_eq!(s.view.len(), 1, "a path no file has adds nothing");
}

#[test]
fn marking_all_reviews_every_file_and_the_marks_survive_a_reload() {
    let mut s = state();
    s.mark_all_seen();
    assert_eq!(s.reviewed(), 2);
    assert!(!s.is_open(&s.files[0]) && !s.is_open(&s.files[1]));
    s.expand_gap("src/a.rs", 0, 100);
    s.reveal_removed("src/b.rs");
    let marks = s.marks();
    assert_eq!(marks.len(), 2);

    let mut reloaded = state();
    reloaded.view = marks_to_view(&marks);
    assert_eq!(reloaded.reviewed(), 2);
    assert!(reloaded.view.iter().all(|(_, v)| v.expanded.is_empty() && !v.show_removed && v.open.is_none()));
}

#[test]
fn a_band_opens_a_step_at_a_time_and_a_small_one_all_at_once() {
    let mut s = state();
    s.expand_gap("src/a.rs", 3, 100);
    assert_eq!(s.view[0].1.expanded.get(&3), Some(&20));
    s.expand_gap("src/a.rs", 3, 80);
    assert_eq!(s.view[0].1.expanded.get(&3), Some(&40));
    s.expand_gap("src/a.rs", 9, 30);
    assert_eq!(s.view[0].1.expanded.get(&9), Some(&30));
}

#[test]
fn totals_add_every_file_and_hold_at_the_top() {
    let mut s = state();
    assert_eq!(s.totals(), (2, 1));
    s.files.push(file("big", "", u32::MAX, 3));
    assert_eq!(s.totals(), (u32::MAX, 4));
}

#[test]
fn a_fresh_diff_keeps_the_marks_and_forgets_the_rest() {
    let mut s = state();
    let a_fp = s.files[0].fingerprint;
    s.toggle_seen("src/a.rs", a_fp);
    s.toggle_file("src/b.rs");
    s.diff_asked();
    assert!(s.loading && s.error.is_none());
    let again = vec![
        file("src/a.rs", "@@ -1,2 +1,2 @@\n-old\n+new\n same", 1, 1),
        file("src/b.rs", "@@ -1 +1,2 @@\n keep\n+added", 1, 0),
    ];
    s.diff_answered(Ok(again));
    assert!(!s.loading);
    assert!(s.is_seen(&s.files[0]), "the mark did not survive the reload");
    assert!(s.is_open(&s.files[1]), "a fold that was not a mark survived the reload");
    assert_eq!(s.view.len(), 1);
}

#[test]
fn a_failed_diff_stays_on_the_screen_beside_the_old_one() {
    let mut s = state();
    s.diff_asked();
    s.diff_answered(Err("the container did not wake".to_owned()));
    assert!(!s.loading);
    assert_eq!(s.error.as_deref(), Some("the container did not wake"));
    assert_eq!(s.files.len(), 2);
}
