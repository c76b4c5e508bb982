//! The review screen's state for the open chat: each file of the diff,
//! parsed once, and per path whether its card is open, which patch was
//! marked reviewed, which collapsed bands were opened, and whether a
//! deleted file's body was asked for.
//!
//! "Reviewed" is pinned to the fingerprint of the patch that was reviewed,
//! so a file that changed since is not reviewed any more, and the marks are
//! all that is kept across a reload: everything else in a file's view is an
//! index into the patch it was parsed from.

use vstd::prelude::*;
use std::collections::HashMap;

use crate::diff::{expand_to, fingerprint, fnv1a, gaps, gaps_from, parse, parse_fits, parse_spec, rows_view, DiffLine, Gap};
use crate::keyed::{find_key, first_index, first_value, keyed_view, lemma_first_index_is_first, lemma_first_push, lemma_first_update};

verus! {

broadcast use vstd::std_specs::hash::group_hash_axioms;

/// One file of a chat's diff as the server sends it: the fields this
/// library reads.
#[derive(Debug, PartialEq, Eq)]
pub struct FileDiff {
    pub file: String,
    pub patch: String,
    pub additions: u32,
    pub deletions: u32,
}

/// One file, parsed once when the diff arrives rather than on every render.
pub struct DiffFile {
    pub info: FileDiff,
    /// Fingerprint of `info.patch`: what "reviewed" is pinned to.
    pub fingerprint: u64,
    pub lines: Vec<DiffLine>,
    pub gaps: Vec<Gap>,
}

/// What the review state reads of a file.
pub struct FileKey {
    pub path: Seq<char>,
    pub fingerprint: u64,
    pub additions: u32,
    pub deletions: u32,
}

impl View for DiffFile {
    type V = FileKey;

    open spec fn view(&self) -> FileKey {
        FileKey {
            path: self.info.file@,
            fingerprint: self.fingerprint,
            additions: self.info.additions,
            deletions: self.info.deletions,
        }
    }
}

impl DiffFile {
    /// Parse a file of the diff: its rows, its collapsible bands, and the
    /// fingerprint of its patch.
    pub fn from(info: FileDiff) -> (f: DiffFile)
        requires
            parse_fits(info.patch@),
        ensures
            f.info == info,
            f.fingerprint == fnv1a(vstd::utf8::encode_utf8(info.patch@)),
            rows_view(f.lines@) == parse_spec(info.patch@),
            f.gaps@ == gaps_from(rows_view(f.lines@), 0),
    {
        let lines = parse(info.patch.as_str());
        let fp = fingerprint(info.patch.as_str());
        let g = gaps(&lines);
        DiffFile { info, fingerprint: fp, lines, gaps: g }
    }
}

/// The reader's view of one file.
pub struct FileView {
    /// Card expanded; `None` means "follow the review mark": marking a file
    /// reviewed folds it away.
    pub open: Option<bool>,
    /// The fingerprint of the patch that was marked reviewed, if any.
    pub seen: Option<u64>,
    /// Gap `start` to the lines revealed out of it.
    pub expanded: HashMap<usize, usize>,
    /// A deleted file's removed lines have been asked for.
    pub show_removed: bool,
}

/// A file's view, read as values.
pub struct ViewState {
    pub open: Option<bool>,
    pub seen: Option<u64>,
    pub expanded: Map<usize, usize>,
    pub show_removed: bool,
}

impl View for FileView {
    type V = ViewState;

    open spec fn view(&self) -> ViewState {
        ViewState {
            open: self.open,
            seen: self.seen,
            expanded: self.expanded@,
            show_removed: self.show_removed,
        }
    }
}

/// The view of a file nothing has been done to.
pub open spec fn fresh() -> ViewState {
    ViewState { open: None, seen: None, expanded: Map::empty(), show_removed: false }
}

impl FileView {
    /// The view of a file nothing has been done to.
    pub fn new() -> (v: FileView)
        ensures
            v@ == fresh(),
    {
        FileView { open: None, seen: None, expanded: HashMap::new(), show_removed: false }
    }
}

/// The review screen's state.
pub struct DiffState {
    pub files: Vec<DiffFile>,
    pub loading: bool,
    pub error: Option<String>,
    /// Per-file view, keyed by path; a path's view is its first entry.
    pub view: Vec<(String, FileView)>,
}

pub open spec fn files_view(files: Seq<DiffFile>) -> Seq<FileKey> {
    files.map_values(|f: DiffFile| f@)
}

/// Whether a file is reviewed: its path's mark is the fingerprint of the
/// patch it has now.
pub open spec fn seen_in(view: Seq<(Seq<char>, ViewState)>, f: FileKey) -> bool {
    match first_value(view, f.path) {
        Some(v) => v.seen == Some(f.fingerprint),
        None => false,
    }
}

/// Whether a file's card is open: as the reader left it, or else open
/// exactly when it is not reviewed.
pub open spec fn open_in(view: Seq<(Seq<char>, ViewState)>, f: FileKey) -> bool {
    match first_value(view, f.path) {
        Some(v) => match v.open {
            Some(o) => o,
            None => !seen_in(view, f),
        },
        None => !seen_in(view, f),
    }
}

/// How many of `files` are reviewed.
pub open spec fn reviewed_count(files: Seq<FileKey>, view: Seq<(Seq<char>, ViewState)>) -> nat
    decreases files.len(),
{
    if files.len() == 0 {
        0
    } else {
        reviewed_count(files.drop_last(), view) + if seen_in(view, files.last()) {
            1nat
        } else {
            0nat
        }
    }
}

pub open spec fn sat_add(a: u32, b: u32) -> u32 {
    if a + b > u32::MAX {
        u32::MAX
    } else {
        (a + b) as u32
    }
}

/// Lines added and removed across the diff, each total held at `u32::MAX`.
pub open spec fn totals_spec(files: Seq<FileKey>) -> (u32, u32)
    decreases files.len(),
{
    if files.len() == 0 {
        (0, 0)
    } else {
        let (a, d) = totals_spec(files.drop_last());
        (sat_add(a, files.last().additions), sat_add(d, files.last().deletions))
    }
}

/// The review marks of a view, in its order: each path that has one, with
/// the fingerprint it was taken against.
pub open spec fn marks_spec(view: Seq<(Seq<char>, ViewState)>) -> Seq<(Seq<char>, u64)>
    decreases view.len(),
{
    if view.len() == 0 {
        Seq::empty()
    } else {
        let rest = marks_spec(view.drop_last());
        match view.last().1.seen {
            Some(h) => rest.push((view.last().0, h)),
            None => rest,
        }
    }
}

pub open spec fn pairs_view(v: Seq<(String, u64)>) -> Seq<(Seq<char>, u64)> {
    v.map_values(|e: (String, u64)| (e.0@, e.1))
}

/// A view rebuilt from marks alone: each marked path reviewed against its
/// fingerprint, and nothing else remembered.
pub open spec fn marks_view(marks: Seq<(Seq<char>, u64)>) -> Seq<(Seq<char>, ViewState)> {
    marks.map_values(|m: (Seq<char>, u64)| (m.0, ViewState { seen: Some(m.1), ..fresh() }))
}

/// Rebuild per-file review state from marks alone. Everything in a file's
/// view but its mark is an index into the patch it was parsed from, so a
/// fresh payload starts from the marks; a mark survives because it carries
/// the fingerprint it was taken against and can check itself.
pub fn marks_to_view(marks: &Vec<(String, u64)>) -> (v: Vec<(String, FileView)>)
    ensures
        keyed_view(v@) == marks_view(pairs_view(marks@)),
{
    let ghost want = marks_view(pairs_view(marks@));
    let mut v: Vec<(String, FileView)> = Vec::new();
    let mut k: usize = 0;
    while k < marks.len()
        invariant
            k <= marks@.len(),
            want == marks_view(pairs_view(marks@)),
            keyed_view(v@) == want.take(k as int),
        decreases marks.len() - k,
    {
        let mut fv = FileView::new();
        fv.seen = Some(marks[k].1);
        assert(fv@ == ViewState { seen: Some(marks@[k as int].1), ..fresh() });
        assert(want[k as int] == (marks@[k as int].0@, fv@));
        let ghost before = keyed_view(v@);
        let name = marks[k].0.clone();
        let ghost entry = (name@, fv@);
        v.push((name, fv));
        assert(keyed_view(v@) =~= before.push(entry));
        assert(want.take(k + 1) =~= want.take(k as int).push(want[k as int]));
        assert(keyed_view(v@) =~= want.take(k + 1));
        k += 1;
    }
    assert(want.take(marks@.len() as int) =~= want);
    v
}

impl DiffState {
    /// An empty review, before anything has been fetched.
    pub fn new() -> (s: DiffState)
        ensures
            s.files@.len() == 0,
            s.view@.len() == 0,
            !s.loading,
            s.error is None,
    {
        DiffState { files: Vec::new(), loading: false, error: None, view: Vec::new() }
    }

    fn view_of(&self, path: &String) -> (r: Option<usize>)
        ensures
            match r {
                Some(j) => first_index(keyed_view(self.view@), path@) == Some(j as int),
                None => first_index(keyed_view(self.view@), path@) is None,
            },
    {
        find_key(&self.view, path.as_str())
    }

    /// The session's diff has been asked for.
    pub fn diff_asked(&mut self)
        ensures
            final(self).loading,
            final(self).error is None,
            files_view(final(self).files@) == files_view(old(self).files@),
            keyed_view(final(self).view@) == keyed_view(old(self).view@),
    {
        self.loading = true;
        self.error = None;
    }

    /// The session's diff has come back. Fresh files start their views over
    /// from the marks alone, since everything else in a view indexes the
    /// patch it was taken from; a failure is kept on the screen.
    pub fn diff_answered(&mut self, result: Result<Vec<DiffFile>, String>)
        ensures
            !final(self).loading,
            match result {
                Ok(files) => {
                    &&& final(self).files@ == files@
                    &&& keyed_view(final(self).view@) == marks_view(marks_spec(keyed_view(old(self).view@)))
                    &&& final(self).error is None
                },
                Err(e) => {
                    &&& final(self).error == Some(e)
                    &&& final(self).files@ == old(self).files@
                    &&& keyed_view(final(self).view@) == keyed_view(old(self).view@)
                },
            },
    {
        self.loading = false;
        match result {
            Ok(files) => {
                let marks = self.marks();
                self.view = marks_to_view(&marks);
                self.files = files;
                self.error = None;
            },
            Err(e) => {
                self.error = Some(e);
            },
        }
    }

    /// Whether a file is reviewed: marked against the patch it has now.
    pub fn is_seen(&self, file: &DiffFile) -> (b: bool)
        ensures
            b == seen_in(keyed_view(self.view@), file@),
    {
        proof {
            lemma_first_index_is_first(keyed_view(self.view@), file.info.file@);
        }
        match self.view_of(&file.info.file) {
            Some(j) => {
                assert(keyed_view(self.view@)[j as int] == (self.view@[j as int].0@, self.view@[j as int].1@));
                match self.view[j].1.seen {
                    Some(h) => h == file.fingerprint,
                    None => false,
                }
            },
            None => false,
        }
    }

    /// Whether a file's card is open.
    pub fn is_open(&self, file: &DiffFile) -> (b: bool)
        ensures
            b == open_in(keyed_view(self.view@), file@),
    {
        proof {
            lemma_first_index_is_first(keyed_view(self.view@), file.info.file@);
        }
        match self.view_of(&file.info.file) {
            Some(j) => {
                assert(keyed_view(self.view@)[j as int] == (self.view@[j as int].0@, self.view@[j as int].1@));
                match self.view[j].1.open {
                    Some(o) => o,
                    None => !self.is_seen(file),
                }
            },
            None => !self.is_seen(file),
        }
    }

    /// How many files are reviewed.
    pub fn reviewed(&self) -> (n: usize)
        ensures
            n == reviewed_count(files_view(self.files@), keyed_view(self.view@)),
    {
        let ghost fv = files_view(self.files@);
        let ghost vv = keyed_view(self.view@);
        let mut n: usize = 0;
        let mut k: usize = 0;
        assert(fv.take(0) =~= Seq::<FileKey>::empty());
        while k < self.files.len()
            invariant
                fv == files_view(self.files@),
                vv == keyed_view(self.view@),
                k <= fv.len(),
                n == reviewed_count(fv.take(k as int), vv),
                n <= k,
            decreases self.files.len() - k,
        {
            assert(fv.take(k + 1).drop_last() =~= fv.take(k as int));
            assert(fv.take(k + 1).last() == self.files@[k as int]@);
            if self.is_seen(&self.files[k]) {
                n += 1;
            }
            k += 1;
        }
        assert(fv.take(fv.len() as int) =~= fv);
        n
    }

    /// (added, removed) across every file in the diff.
    pub fn totals(&self) -> (t: (u32, u32))
        ensures
            t == totals_spec(files_view(self.files@)),
    {
        let ghost fv = files_view(self.files@);
        let mut a: u32 = 0;
        let mut d: u32 = 0;
        let mut k: usize = 0;
        assert(fv.take(0) =~= Seq::<FileKey>::empty());
        while k < self.files.len()
            invariant
                fv == files_view(self.files@),
                k <= fv.len(),
                (a, d) == totals_spec(fv.take(k as int)),
            decreases self.files.len() - k,
        {
            assert(fv.take(k + 1).drop_last() =~= fv.take(k as int));
            assert(fv.take(k + 1).last() == self.files@[k as int]@);
            a = a.saturating_add(self.files[k].info.additions);
            d = d.saturating_add(self.files[k].info.deletions);
            k += 1;
        }
        assert(fv.take(fv.len() as int) =~= fv);
        (a, d)
    }

    /// Path and fingerprint of every review mark, for keeping across a
    /// reload.
    pub fn marks(&self) -> (m: Vec<(String, u64)>)
        ensures
            pairs_view(m@) == marks_spec(keyed_view(self.view@)),
    {
        let ghost vv = keyed_view(self.view@);
        let mut m: Vec<(String, u64)> = Vec::new();
        let mut k: usize = 0;
        assert(vv.take(0) =~= Seq::<(Seq<char>, ViewState)>::empty());
        while k < self.view.len()
            invariant
                vv == keyed_view(self.view@),
                k <= vv.len(),
                pairs_view(m@) == marks_spec(vv.take(k as int)),
            decreases self.view.len() - k,
        {
            assert(vv.take(k + 1).drop_last() =~= vv.take(k as int));
            assert(vv.take(k + 1).last() == (self.view@[k as int].0@, self.view@[k as int].1@));
            match self.view[k].1.seen {
                Some(h) => {
                    let ghost before = pairs_view(m@);
                    m.push((self.view[k].0.clone(), h));
                    assert(pairs_view(m@) =~= before.push((self.view@[k as int].0@, h)));
                },
                None => {},
            }
            k += 1;
        }
        assert(vv.take(vv.len() as int) =~= vv);
        m
    }

    /// The index of `path`'s view, made fresh if it had none.
    fn entry(&mut self, path: &str) -> (j: usize)
        ensures
            final(self).files == old(self).files,
            final(self).loading == old(self).loading,
            final(self).error == old(self).error,
            first_index(keyed_view(final(self).view@), path@) == Some(j as int),
            j < final(self).view@.len(),
            final(self).view@[j as int].0@ == path@,
            forall|p: Seq<char>|
                #![trigger first_value(keyed_view(final(self).view@), p)]
                first_value(keyed_view(final(self).view@), p) == if p == path@ {
                    match first_value(keyed_view(old(self).view@), path@) {
                        Some(v) => Some(v),
                        None => Some(fresh()),
                    }
                } else {
                    first_value(keyed_view(old(self).view@), p)
                },
    {
        let ghost vv = keyed_view(self.view@);
        proof {
            lemma_first_index_is_first(vv, path@);
        }
        match find_key(&self.view, path) {
            Some(j) => {
                assert(vv[j as int] == (self.view@[j as int].0@, self.view@[j as int].1@));
                j
            },
            None => {
                let n = self.view.len();
                self.view.push((path.to_owned(), FileView::new()));
                assert(keyed_view(self.view@) =~= vv.push((path@, fresh())));
                assert forall|p: Seq<char>| #![trigger first_value(keyed_view(self.view@), p)]
                    first_value(keyed_view(self.view@), p) == if p == path@ {
                        Some(fresh())
                    } else {
                        first_value(vv, p)
                    } by {
                    lemma_first_push(vv, path@, fresh(), p);
                }
                proof {
                    lemma_first_push(vv, path@, fresh(), path@);
                }
                n
            },
        }
    }
}

/// A path's view, or a fresh one when it has none.
pub open spec fn view_at(view: Seq<(Seq<char>, ViewState)>, path: Seq<char>) -> ViewState {
    match first_value(view, path) {
        Some(v) => v,
        None => fresh(),
    }
}

/// What marking a file reviewed, or clearing the mark, does to its view:
/// marking folds the card, clearing opens it.
pub open spec fn toggled_seen(v: ViewState, fingerprint: u64) -> ViewState {
    if v.seen == Some(fingerprint) {
        ViewState { seen: None, open: Some(true), ..v }
    } else {
        ViewState { seen: Some(fingerprint), open: Some(false), ..v }
    }
}

/// A file as the review state looks it up by path.
pub open spec fn files_by_path(files: Seq<FileKey>) -> Seq<(Seq<char>, FileKey)> {
    files.map_values(|f: FileKey| (f.path, f))
}

/// The views after every file is marked reviewed in turn: each path takes
/// the fingerprint of the last file under it, and its card folds.
pub open spec fn marked_all(files: Seq<FileKey>, view: Seq<(Seq<char>, ViewState)>, p: Seq<char>) -> Option<ViewState>
    decreases files.len(),
{
    if files.len() == 0 {
        first_value(view, p)
    } else {
        let prev = marked_all(files.drop_last(), view, p);
        if files.last().path == p {
            let base = match prev {
                Some(v) => v,
                None => fresh(),
            };
            Some(ViewState { seen: Some(files.last().fingerprint), open: Some(false), ..base })
        } else {
            prev
        }
    }
}

/// How many lines a band has revealed so far.
pub open spec fn revealed_in(v: ViewState, key: usize) -> usize {
    if v.expanded.contains_key(key) {
        v.expanded[key]
    } else {
        0
    }
}

impl DiffState {
    /// Mark a file reviewed against `fingerprint`, or clear the mark if it
    /// is there. Marking also folds the card: a finished file stops taking
    /// up the scroll.
    pub fn toggle_seen(&mut self, path: &str, fingerprint: u64)
        ensures
            final(self).files == old(self).files,
            forall|p: Seq<char>|
                #![trigger first_value(keyed_view(final(self).view@), p)]
                first_value(keyed_view(final(self).view@), p) == if p == path@ {
                    Some(toggled_seen(view_at(keyed_view(old(self).view@), path@), fingerprint))
                } else {
                    first_value(keyed_view(old(self).view@), p)
                },
    {
        let ghost v0 = keyed_view(self.view@);
        let j = self.entry(path);
        let ghost v1 = keyed_view(self.view@);
        let ghost cur = self.view@[j as int].1@;
        assert(v1[j as int] == (path@, cur));
        proof {
            lemma_first_index_is_first(v1, path@);
        }
        if self.view[j].1.seen == Some(fingerprint) {
            self.view[j].1.seen = None;
            self.view[j].1.open = Some(true);
        } else {
            self.view[j].1.seen = Some(fingerprint);
            self.view[j].1.open = Some(false);
        }
        assert(keyed_view(self.view@) =~= v1.update(j as int, (path@, toggled_seen(cur, fingerprint))));
        assert forall|p: Seq<char>| #![trigger first_value(keyed_view(self.view@), p)]
            first_value(keyed_view(self.view@), p) == if p == path@ {
                Some(toggled_seen(view_at(v0, path@), fingerprint))
            } else {
                first_value(v0, p)
            } by {
            lemma_first_update(v1, path@, j as int, toggled_seen(cur, fingerprint), p);
        }
    }

    /// Open a file's card if it is folded, fold it if it is open. A path no
    /// file of the diff has changes nothing.
    pub fn toggle_file(&mut self, path: &str)
        ensures
            final(self).files == old(self).files,
            match first_value(files_by_path(files_view(old(self).files@)), path@) {
                None => final(self).view@ == old(self).view@,
                Some(f) => forall|p: Seq<char>|
                    #![trigger first_value(keyed_view(final(self).view@), p)]
                    first_value(keyed_view(final(self).view@), p) == if p == path@ {
                        Some(
                            ViewState {
                                open: Some(!open_in(keyed_view(old(self).view@), f)),
                                ..view_at(keyed_view(old(self).view@), path@)
                            },
                        )
                    } else {
                        first_value(keyed_view(old(self).view@), p)
                    },
            },
    {
        let ghost v0 = keyed_view(self.view@);
        let ghost fp = files_by_path(files_view(self.files@));
        let mut k: usize = 0;
        while k < self.files.len() && !crate::text::same_text(self.files[k].info.file.as_str(), path)
            invariant
                fp == files_by_path(files_view(self.files@)),
                k <= fp.len(),
                forall|q: int| 0 <= q < k ==> (#[trigger] fp[q]).0 != path@,
            decreases self.files.len() - k,
        {
            assert(fp[k as int] == (self.files@[k as int].info.file@, self.files@[k as int]@));
            k += 1;
        }
        if k == self.files.len() {
            proof {
                crate::keyed::lemma_first_absent(fp, path@);
            }
            return;
        }
        assert(fp[k as int] == (self.files@[k as int].info.file@, self.files@[k as int]@));
        proof {
            crate::keyed::lemma_first_found(fp, path@, k as int);
        }
        let open = self.is_open(&self.files[k]);
        let j = self.entry(path);
        let ghost v1 = keyed_view(self.view@);
        let ghost cur = self.view@[j as int].1@;
        assert(v1[j as int] == (path@, cur));
        self.view[j].1.open = Some(!open);
        let ghost next = ViewState { open: Some(!open), ..cur };
        assert(keyed_view(self.view@) =~= v1.update(j as int, (path@, next)));
        proof {
            lemma_first_index_is_first(v1, path@);
        }
        assert forall|p: Seq<char>| #![trigger first_value(keyed_view(self.view@), p)]
            first_value(keyed_view(self.view@), p) == if p == path@ {
                Some(ViewState { open: Some(!open_in(v0, fp[k as int].1)), ..view_at(v0, path@) })
            } else {
                first_value(v0, p)
            } by {
            lemma_first_update(v1, path@, j as int, next, p);
        }
    }

    /// Mark every file of the diff reviewed against the patch it has now.
    pub fn mark_all_seen(&mut self)
        ensures
            final(self).files == old(self).files,
            forall|p: Seq<char>|
                #![trigger first_value(keyed_view(final(self).view@), p)]
                first_value(keyed_view(final(self).view@), p) == marked_all(
                    files_view(old(self).files@),
                    keyed_view(old(self).view@),
                    p,
                ),
    {
        let ghost v0 = keyed_view(self.view@);
        let ghost fv = files_view(self.files@);
        let mut k: usize = 0;
        assert(fv.take(0) =~= Seq::<FileKey>::empty());
        while k < self.files.len()
            invariant
                self.files == old(self).files,
                fv == files_view(self.files@),
                v0 == keyed_view(old(self).view@),
                fv == files_view(old(self).files@),
                k <= fv.len(),
                forall|p: Seq<char>|
                    #![trigger first_value(keyed_view(self.view@), p)]
                    first_value(keyed_view(self.view@), p) == marked_all(fv.take(k as int), v0, p),
            decreases self.files.len() - k,
        {
            let path = self.files[k].info.file.clone();
            let h = self.files[k].fingerprint;
            let ghost before = keyed_view(self.view@);
            let j = self.entry(path.as_str());
            let ghost v1 = keyed_view(self.view@);
            let ghost cur = self.view@[j as int].1@;
            assert(v1[j as int] == (path@, cur));
            self.view[j].1.seen = Some(h);
            self.view[j].1.open = Some(false);
            let ghost next = ViewState { seen: Some(h), open: Some(false), ..cur };
            assert(keyed_view(self.view@) =~= v1.update(j as int, (path@, next)));
            proof {
                lemma_first_index_is_first(v1, path@);
            }
            assert(fv.take(k + 1).drop_last() =~= fv.take(k as int));
            assert(fv.take(k + 1).last() == fv[k as int]);
            assert forall|p: Seq<char>| #![trigger first_value(keyed_view(self.view@), p)]
                first_value(keyed_view(self.view@), p) == marked_all(fv.take(k + 1), v0, p) by {
                lemma_first_update(v1, path@, j as int, next, p);
                assert(first_value(before, p) == marked_all(fv.take(k as int), v0, p));
            }
            k += 1;
        }
        assert(fv.take(fv.len() as int) =~= fv);
    }

    /// Give back part of a collapsed band of unchanged lines: `key` is the
    /// band's first line and `hidden` how many it still hides.
    pub fn expand_gap(&mut self, path: &str, key: usize, hidden: usize)
        requires
            revealed_in(view_at(keyed_view(old(self).view@), path@), key) + hidden <= usize::MAX,
        ensures
            final(self).files == old(self).files,
            forall|p: Seq<char>|
                #![trigger first_value(keyed_view(final(self).view@), p)]
                first_value(keyed_view(final(self).view@), p) == if p == path@ {
                    Some(
                        ({
                            let v = view_at(keyed_view(old(self).view@), path@);
                            let r = revealed_in(v, key);
                            ViewState {
                                expanded: v.expanded.insert(
                                    key,
                                    (if hidden <= 2 * crate::diff::EXPAND_STEP {
                                        r + hidden
                                    } else {
                                        r + crate::diff::EXPAND_STEP
                                    }) as usize,
                                ),
                                ..v
                            }
                        }),
                    )
                } else {
                    first_value(keyed_view(old(self).view@), p)
                },
    {
        let ghost v0 = keyed_view(self.view@);
        let j = self.entry(path);
        let ghost v1 = keyed_view(self.view@);
        let ghost cur = self.view@[j as int].1@;
        assert(v1[j as int] == (path@, cur));
        proof {
            lemma_first_index_is_first(v1, path@);
        }
        let revealed = match self.view[j].1.expanded.get(&key) {
            Some(r) => *r,
            None => 0,
        };
        assert(revealed == revealed_in(cur, key));
        let grown = expand_to(revealed, hidden);
        self.view[j].1.expanded.insert(key, grown);
        let ghost next = ViewState { expanded: cur.expanded.insert(key, grown), ..cur };
        assert(keyed_view(self.view@) =~= v1.update(j as int, (path@, next)));
        proof {
            lemma_first_index_is_first(v1, path@);
        }
        assert forall|p: Seq<char>| #![trigger first_value(keyed_view(self.view@), p)]
            first_value(keyed_view(self.view@), p) == if p == path@ {
                Some(next)
            } else {
                first_value(v0, p)
            } by {
            lemma_first_update(v1, path@, j as int, next, p);
        }
    }

    /// Show the body of a deleted file, which is otherwise a count.
    pub fn reveal_removed(&mut self, path: &str)
        ensures
            final(self).files == old(self).files,
            forall|p: Seq<char>|
                #![trigger first_value(keyed_view(final(self).view@), p)]
                first_value(keyed_view(final(self).view@), p) == if p == path@ {
                    Some(ViewState { show_removed: true, ..view_at(keyed_view(old(self).view@), path@) })
                } else {
                    first_value(keyed_view(old(self).view@), p)
                },
    {
        let ghost v0 = keyed_view(self.view@);
        let j = self.entry(path);
        let ghost v1 = keyed_view(self.view@);
        let ghost cur = self.view@[j as int].1@;
        assert(v1[j as int] == (path@, cur));
        self.view[j].1.show_removed = true;
        let ghost next = ViewState { show_removed: true, ..cur };
        assert(keyed_view(self.view@) =~= v1.update(j as int, (path@, next)));
        proof {
            lemma_first_index_is_first(v1, path@);
        }
        assert forall|p: Seq<char>| #![trigger first_value(keyed_view(self.view@), p)]
            first_value(keyed_view(self.view@), p) == if p == path@ {
                Some(next)
            } else {
                first_value(v0, p)
            } by {
            lemma_first_update(v1, path@, j as int, next, p);
        }
    }
}

// ---- laws ----------------------------------------------------------------------

/// Whether no two entries of a view share a path.
pub open spec fn distinct_paths(view: Seq<(Seq<char>, ViewState)>) -> bool {
    forall|i: int, j: int| 0 <= i < j < view.len() ==> view[i].0 != view[j].0
}

/// Toggling a review mark twice against the same patch gives the mark
/// back, when there was none or it was this patch's.
pub proof fn law_toggling_a_mark_twice_restores_it(v: ViewState, fingerprint: u64)
    requires
        v.seen is None || v.seen == Some(fingerprint),
    ensures
        toggled_seen(toggled_seen(v, fingerprint), fingerprint).seen == v.seen,
{
}

/// A mark is pinned to the patch it was taken against: right after a file
/// is marked, it reads as reviewed, and a file under the same path whose
/// patch has since changed does not.
pub proof fn law_a_mark_is_pinned_to_its_patch(
    view: Seq<(Seq<char>, ViewState)>,
    f: FileKey,
    changed: FileKey,
)
    requires
        view_at(view, f.path).seen != Some(f.fingerprint),
        changed.path == f.path,
        changed.fingerprint != f.fingerprint,
    ensures
        toggled_seen(view_at(view, f.path), f.fingerprint).seen == Some(f.fingerprint),
        toggled_seen(view_at(view, f.path), f.fingerprint).seen != Some(changed.fingerprint),
{
}

/// Marking every file reviewed reviews every file no later file shares a
/// path with: its path's mark is its own patch's fingerprint.
pub proof fn law_marking_all_reviews_every_file(
    files: Seq<FileKey>,
    view: Seq<(Seq<char>, ViewState)>,
    i: int,
)
    requires
        0 <= i < files.len(),
        forall|j: int| i < j < files.len() ==> (#[trigger] files[j]).path != files[i].path,
    ensures
        marked_all(files, view, files[i].path) matches Some(v) && v.seen == Some(
            files[i].fingerprint,
        ),
    decreases files.len(),
{
    if i < files.len() - 1 {
        let front = files.drop_last();
        assert forall|j: int| i < j < front.len() implies (#[trigger] front[j]).path != front[i].path by {
            assert(front[j] == files[j]);
        }
        assert(files.last() == files[files.len() - 1]);
        law_marking_all_reviews_every_file(front, view, i);
        assert(front[i] == files[i]);
    }
}

/// What a reload keeps of a path's view: its mark, if it has one.
pub open spec fn kept_mark(v: Option<ViewState>) -> Option<ViewState> {
    match v {
        Some(x) => match x.seen {
            Some(h) => Some(ViewState { seen: Some(h), ..fresh() }),
            None => None,
        },
        None => None,
    }
}

proof fn lemma_marks_view_push(m: Seq<(Seq<char>, u64)>, x: (Seq<char>, u64))
    ensures
        marks_view(m.push(x)) == marks_view(m).push((x.0, ViewState { seen: Some(x.1), ..fresh() })),
{
    assert(marks_view(m.push(x)) =~= marks_view(m).push((x.0, ViewState { seen: Some(x.1), ..fresh() })));
}

proof fn lemma_marks_reload(view: Seq<(Seq<char>, ViewState)>, p: Seq<char>)
    requires
        distinct_paths(view),
    ensures
        first_value(marks_view(marks_spec(view)), p) == kept_mark(first_value(view, p)),
    decreases view.len(),
{
    if view.len() == 0 {
        assert(marks_view(marks_spec(view)) =~= Seq::<(Seq<char>, ViewState)>::empty());
    } else {
        let front = view.drop_last();
        let last = view.last();
        assert(view =~= front.push(last));
        assert(distinct_paths(front)) by {
            assert forall|i: int, j: int| 0 <= i < j < front.len() implies front[i].0 != front[j].0 by {
                assert(front[i] == view[i] && front[j] == view[j]);
            }
        }
        lemma_marks_reload(front, p);
        crate::keyed::lemma_first_value_push(front, last, p);
        let m0 = marks_spec(front);
        match last.1.seen {
            Some(h) => {
                lemma_marks_view_push(m0, (last.0, h));
                crate::keyed::lemma_first_value_push(
                    marks_view(m0),
                    (last.0, ViewState { seen: Some(h), ..fresh() }),
                    p,
                );
            },
            None => {},
        }
        lemma_first_index_is_first(front, p);
        if first_value(front, p) is Some && last.0 == p {
            let j = first_index(front, p)->0;
            assert(view[j] == front[j]);
            assert(view[view.len() - 1] == last);
            assert(view[j].0 != view[view.len() - 1].0);
        }
    }
}

/// The point of keeping the marks: a view rebuilt from them after a reload
/// reviews exactly the files the view it was taken from reviewed.
pub proof fn law_marks_survive_a_reload(view: Seq<(Seq<char>, ViewState)>, f: FileKey)
    requires
        distinct_paths(view),
    ensures
        seen_in(marks_view(marks_spec(view)), f) == seen_in(view, f),
{
    lemma_marks_reload(view, f.path);
}

} // verus!
