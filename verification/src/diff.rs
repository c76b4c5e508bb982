//! Turning a per-file patch, or the two halves of an edit, into something
//! reviewable on a phone.
//!
//! `OpenCode`'s patches are one hunk per file spanning the whole file, so the
//! work here is client-side re-hunking: parse the patch into numbered lines
//! ([`parse`], or [`between`] for two whole texts), then decide which of them
//! to show ([`gaps`], [`blocks`]).

use std::collections::HashMap;

use vstd::prelude::*;

use crate::text::{
    as_nat_option, chars_of, lines, parse_bounded, parse_bounded_spec, split_lines, split_words,
    string_of, words,
};

verus! {

/// Unchanged lines kept either side of a changed run.
pub const CONTEXT: usize = 3;

/// Lines a tap on a collapsed band reveals, split between its two ends.
pub const EXPAND_STEP: usize = 20;

/// Ceiling on rows rendered for one file.
pub const RENDER_CAP: usize = 800;

/// The most cells the pairing walk in [`between`] will allocate, as
/// `old x new` lines.
pub const PAIR_BUDGET: usize = 250_000;

#[derive(Clone, Copy, Debug, PartialEq, Eq, Structural)]
pub enum LineKind {
    Context,
    Add,
    Del,
}

/// One row of a patch, with the line numbers the collapsed bands need.
#[derive(Clone, Debug, PartialEq, Eq)]
pub struct DiffLine {
    pub kind: LineKind,
    /// Number on the old side; 0 for an added line.
    pub old_no: u32,
    /// Number on the new side; 0 for a removed line.
    pub new_no: u32,
    pub text: String,
    /// The patch carried `\ No newline at end of file` after this line.
    pub no_newline: bool,
}

/// A `DiffLine` with its text read as characters.
pub struct LineView {
    pub kind: LineKind,
    pub old_no: u32,
    pub new_no: u32,
    pub text: Seq<char>,
    pub no_newline: bool,
}

impl View for DiffLine {
    type V = LineView;

    open spec fn view(&self) -> LineView {
        LineView {
            kind: self.kind,
            old_no: self.old_no,
            new_no: self.new_no,
            text: self.text@,
            no_newline: self.no_newline,
        }
    }
}

pub open spec fn rows_view(rows: Seq<DiffLine>) -> Seq<LineView> {
    rows.map_values(|l: DiffLine| l@)
}

pub open spec fn is_change(k: LineKind) -> bool {
    !(k is Context)
}

impl DiffLine {
    pub fn changed(&self) -> (b: bool)
        ensures
            b == is_change(self.kind),
    {
        match self.kind {
            LineKind::Context => false,
            _ => true,
        }
    }

    /// The glyph in the sign column.
    pub fn sign(&self) -> (s: &'static str)
        ensures
            s@ == sign_of(self.kind),
    {
        match self.kind {
            LineKind::Context => " ",
            LineKind::Add => "+",
            LineKind::Del => "-",
        }
    }

    pub fn row_class(&self) -> (s: &'static str)
        ensures
            s@ == row_class_of(self.kind),
    {
        match self.kind {
            LineKind::Context => "diff-line ctx",
            LineKind::Add => "diff-line add",
            LineKind::Del => "diff-line del",
        }
    }
}

pub open spec fn sign_of(k: LineKind) -> Seq<char> {
    match k {
        LineKind::Context => " "@,
        LineKind::Add => "+"@,
        LineKind::Del => "-"@,
    }
}

pub open spec fn row_class_of(k: LineKind) -> Seq<char> {
    match k {
        LineKind::Context => "diff-line ctx"@,
        LineKind::Add => "diff-line add"@,
        LineKind::Del => "diff-line del"@,
    }
}

/// A run of unchanged lines far enough from any change to be worth hiding.
#[derive(Clone, Copy, Debug, PartialEq, Eq, Structural)]
pub struct Gap {
    /// Index of the run's first line, and its identity in the expand map.
    pub start: usize,
    pub len: usize,
}

/// What to render, in order.
#[derive(Clone, Copy, Debug, PartialEq, Eq, Structural)]
pub enum Block {
    /// Lines `start..end` shown as rows.
    Rows { start: usize, end: usize },
    /// A collapsed band standing in for `hidden` lines, the first of which is
    /// line `at` on the new side.
    Gap { key: usize, hidden: usize, at: u32 },
}

/// The blocks for one file, plus how many trailing lines the render cap ate.
#[derive(Clone, Debug, PartialEq, Eq, Default)]
pub struct Rendered {
    pub blocks: Vec<Block>,
    pub dropped: usize,
    /// How many of the dropped rows were changes rather than context.
    pub dropped_changes: usize,
}

// ---- the patch grammar --------------------------------------------------

/// The characters of `s` before its first `c`, or all of it.
pub open spec fn before_first(s: Seq<char>, c: char) -> Seq<char>
    decreases s.len(),
{
    if s.len() == 0 {
        s
    } else if s[0] == c {
        Seq::empty()
    } else {
        seq![s[0]] + before_first(s.drop_first(), c)
    }
}

/// `range.split(',').next()?.parse::<u32>().ok()`.
pub open spec fn start_of_spec(range: Seq<char>) -> Option<nat> {
    parse_bounded_spec(before_first(range, ','), 0xffff_ffff)
}

/// The `-a`/`+c` numbers of a hunk header, read word by word: the first
/// `-` word that parses gives the old start, the first `+` word that
/// parses the new one.
pub open spec fn header_scan(ws: Seq<Seq<char>>) -> (Option<nat>, Option<nat>)
    decreases ws.len(),
{
    if ws.len() == 0 {
        (None, None)
    } else {
        let (old, new) = header_scan(ws.drop_last());
        let t = ws.last();
        if t.len() > 0 && t[0] == '-' {
            if old is None {
                (start_of_spec(t.drop_first()), new)
            } else {
                (old, new)
            }
        } else if t.len() > 0 && t[0] == '+' {
            if new is None {
                (old, start_of_spec(t.drop_first()))
            } else {
                (old, new)
            }
        } else {
            (old, new)
        }
    }
}

pub open spec fn minus_one(n: nat) -> nat {
    if n == 0 {
        0
    } else {
        (n - 1) as nat
    }
}

/// The line numbers a `@@ -a,b +c,d @@` header starts at, as the number
/// before the first line of the hunk.
pub open spec fn hunk_start_spec(header: Seq<char>) -> Option<(nat, nat)> {
    match header_scan(words(header)) {
        (Some(o), Some(n)) => Some((minus_one(o), minus_one(n))),
        _ => None,
    }
}

/// Where the walk over a patch has got to.
pub struct ParseState {
    pub out: Seq<LineView>,
    pub old_no: int,
    pub new_no: int,
    pub in_hunk: bool,
    /// No line number has gone past `u32::MAX`.
    pub fits: bool,
}

pub open spec fn parse_start() -> ParseState {
    ParseState { out: Seq::empty(), old_no: 0, new_no: 0, in_hunk: false, fits: true }
}

pub open spec fn is_hunk_header(raw: Seq<char>) -> bool {
    raw.len() >= 2 && raw[0] == '@' && raw[1] == '@'
}

/// The kind a patch line's first character says it is.
pub open spec fn kind_of_line(raw: Seq<char>) -> LineKind {
    if raw.len() > 0 && raw[0] == '+' {
        LineKind::Add
    } else if raw.len() > 0 && raw[0] == '-' {
        LineKind::Del
    } else {
        LineKind::Context
    }
}

/// A patch line's text: the line past its marker, or all of it when it has
/// no marker.
pub open spec fn text_of_line(raw: Seq<char>) -> Seq<char> {
    if raw.len() > 0 && (raw[0] == '+' || raw[0] == '-' || raw[0] == ' ') {
        raw.drop_first()
    } else {
        raw
    }
}

/// One numbered row after the counters `old_no`, `new_no`: the counters of
/// the side or sides it belongs to move on by one.
pub open spec fn numbered(kind: LineKind, text: Seq<char>, old_no: int, new_no: int) -> (
    LineView,
    int,
    int,
) {
    match kind {
        LineKind::Add => (
            LineView { kind, old_no: 0, new_no: (new_no + 1) as u32, text, no_newline: false },
            old_no,
            new_no + 1,
        ),
        LineKind::Del => (
            LineView { kind, old_no: (old_no + 1) as u32, new_no: 0, text, no_newline: false },
            old_no + 1,
            new_no,
        ),
        LineKind::Context => (
            LineView {
                kind,
                old_no: (old_no + 1) as u32,
                new_no: (new_no + 1) as u32,
                text,
                no_newline: false,
            },
            old_no + 1,
            new_no + 1,
        ),
    }
}

pub open spec fn counters_fit(old_no: int, new_no: int) -> bool {
    0 <= old_no <= 0xffff_ffff && 0 <= new_no <= 0xffff_ffff
}

/// One line of a patch read.
pub open spec fn parse_step(st: ParseState, raw: Seq<char>) -> ParseState {
    if is_hunk_header(raw) {
        match hunk_start_spec(raw.skip(2)) {
            Some((o, n)) => ParseState { old_no: o as int, new_no: n as int, in_hunk: true, ..st },
            None => ParseState { in_hunk: true, ..st },
        }
    } else if !st.in_hunk {
        st
    } else if raw.len() > 0 && raw[0] == '\\' {
        if st.out.len() > 0 {
            ParseState {
                out: st.out.update(
                    st.out.len() - 1,
                    LineView { no_newline: true, ..st.out.last() },
                ),
                ..st
            }
        } else {
            st
        }
    } else {
        let (row, o, n) = numbered(kind_of_line(raw), text_of_line(raw), st.old_no, st.new_no);
        ParseState {
            out: st.out.push(row),
            old_no: o,
            new_no: n,
            fits: st.fits && counters_fit(o, n),
            ..st
        }
    }
}

pub open spec fn parse_state(ls: Seq<Seq<char>>) -> ParseState {
    ls.fold_left(parse_start(), |st: ParseState, raw: Seq<char>| parse_step(st, raw))
}

/// The rows [`parse`] reads out of a patch.
pub open spec fn parse_spec(patch: Seq<char>) -> Seq<LineView> {
    parse_state(lines(patch)).out
}

/// Every line number the walk over `patch` reaches fits in a `u32`.
pub open spec fn parse_fits(patch: Seq<char>) -> bool {
    parse_state(lines(patch)).fits
}

// ---- reading a patch ----------------------------------------------------

/// The characters before the first `,`.
fn before_comma(range: &Vec<char>) -> (out: Vec<char>)
    ensures
        out@ == before_first(range@, ','),
{
    let mut out: Vec<char> = Vec::new();
    let mut i: usize = 0;
    assert(range@.skip(0) =~= range@);
    assert(out@ + before_first(range@, ',') =~= before_first(range@, ','));
    while i < range.len()
        invariant
            i <= range.len(),
            out@ + before_first(range@.skip(i as int), ',') == before_first(range@, ','),
        decreases range.len() - i,
    {
        assert(range@.skip(i as int).drop_first() =~= range@.skip(i + 1));
        if range[i] == ',' {
            assert(range@.skip(i as int) =~= range@.skip(i as int));
            assert(before_first(range@.skip(i as int), ',') =~= Seq::<char>::empty());
            assert(out@ + Seq::<char>::empty() =~= out@);
            return out;
        }
        out.push(range[i]);
        assert(out@ + before_first(range@.skip(i + 1), ',') =~= before_first(range@, ','));
        i += 1;
    }
    assert(range@.skip(i as int) =~= Seq::<char>::empty());
    assert(out@ + Seq::<char>::empty() =~= out@);
    out
}

/// `range.split(',').next()?.parse().ok()`: the number a hunk range starts
/// at.
pub fn start_of(range: &Vec<char>) -> (r: Option<u32>)
    ensures
        as_nat_option(
            match r {
                Some(v) => Some(v as u64),
                None => None,
            },
        ) == start_of_spec(range@),
{
    let head = before_comma(range);
    match parse_bounded(&head, 0xffff_ffff) {
        Some(v) => Some(v as u32),
        None => None,
    }
}

/// The line numbers a `@@ -a,b +c,d @@` header starts at, as the number
/// before the first line of the hunk, so the walk can pre-increment. An
/// added file's `-0,0` stays at zero.
pub fn hunk_start(header: &Vec<char>) -> (r: Option<(u32, u32)>)
    ensures
        match (r, hunk_start_spec(header@)) {
            (Some((o, n)), Some((so, sn))) => o == so && n == sn,
            (None, None) => true,
            _ => false,
        },
{
    let tokens = split_words(header);
    let ghost ws = words(header@);
    let mut old: Option<u32> = None;
    let mut new: Option<u32> = None;
    let mut i: usize = 0;
    while i < tokens.len()
        invariant
            i <= tokens.len(),
            ws == words(header@),
            tokens@.len() == ws.len(),
            forall|k: int| 0 <= k < tokens@.len() ==> #[trigger] tokens@[k]@ == ws[k],
            header_scan(ws.take(i as int)) == (
                match old {
                    Some(v) => Some(v as nat),
                    None => None::<nat>,
                },
                match new {
                    Some(v) => Some(v as nat),
                    None => None::<nat>,
                },
            ),
        decreases tokens.len() - i,
    {
        assert(ws.take(i + 1).drop_last() =~= ws.take(i as int));
        let token = &tokens[i];
        if token.len() > 0 && token[0] == '-' {
            if old.is_none() {
                let rest = string_drop_first(token);
                old = start_of(&rest);
            }
        } else if token.len() > 0 && token[0] == '+' {
            if new.is_none() {
                let rest = string_drop_first(token);
                new = start_of(&rest);
            }
        }
        i += 1;
    }
    assert(ws.take(ws.len() as int) =~= ws);
    match (old, new) {
        (Some(o), Some(n)) => Some((o.saturating_sub(1), n.saturating_sub(1))),
        _ => None,
    }
}

/// `v` without its first character.
fn string_drop_first(v: &Vec<char>) -> (out: Vec<char>)
    requires
        v@.len() > 0,
    ensures
        out@ == v@.drop_first(),
{
    let mut out: Vec<char> = Vec::new();
    let mut i: usize = 1;
    while i < v.len()
        invariant
            1 <= i <= v.len(),
            out@ == v@.subrange(1, i as int),
        decreases v.len() - i,
    {
        out.push(v[i]);
        assert(out@ =~= v@.subrange(1, i + 1));
        i += 1;
    }
    assert(v@.subrange(1, v@.len() as int) =~= v@.drop_first());
    out
}

proof fn lemma_parse_fits_prefix(ls: Seq<Seq<char>>, i: int)
    requires
        0 <= i <= ls.len(),
        parse_state(ls).fits,
    ensures
        parse_state(ls.take(i)).fits,
    decreases ls.len() - i,
{
    if i < ls.len() {
        let t = ls.take(i + 1);
        lemma_parse_fits_prefix(ls, i + 1);
        assert(t.drop_last() =~= ls.take(i));
        assert(parse_state(t) == parse_step(parse_state(t.drop_last()), t.last()));
    } else {
        assert(ls.take(i) =~= ls);
    }
}

/// Parse a unified patch into numbered lines.
///
/// Everything before the first `@@` is skipped rather than pattern-matched,
/// which is what lets one parser take both a `jsdiff` preamble and a
/// git-shaped one. A `\ No newline at end of file` marks the row above it
/// rather than becoming a row; a line with no marker is kept whole as
/// context, so a payload change degrades visibly.
pub fn parse(patch: &str) -> (out: Vec<DiffLine>)
    requires
        parse_fits(patch@),
    ensures
        rows_view(out@) == parse_spec(patch@),
{
    let chars = chars_of(patch);
    let raws = split_lines(&chars);
    let ghost ls = lines(patch@);
    let mut out: Vec<DiffLine> = Vec::new();
    let mut old_no: u32 = 0;
    let mut new_no: u32 = 0;
    let mut in_hunk = false;
    let mut i: usize = 0;
    assert(ls.take(0) =~= Seq::<Seq<char>>::empty());
    assert(rows_view(out@) =~= Seq::<LineView>::empty());
    while i < raws.len()
        invariant
            i <= raws.len(),
            ls == lines(patch@),
            raws@.len() == ls.len(),
            forall|k: int| 0 <= k < raws@.len() ==> #[trigger] raws@[k]@ == ls[k],
            parse_state(ls).fits,
            parse_state(ls.take(i as int)) == (ParseState {
                out: rows_view(out@),
                old_no: old_no as int,
                new_no: new_no as int,
                in_hunk,
                fits: true,
            }),
        decreases raws.len() - i,
    {
        proof {
            assert(ls.take(i + 1).drop_last() =~= ls.take(i as int));
            lemma_parse_fits_prefix(ls, i + 1);
        }
        let ghost before = parse_state(ls.take(i as int));
        let raw = &raws[i];
        let ghost r = ls[i as int];
        assert(raw@ == r);
        if raw.len() >= 2 && raw[0] == '@' && raw[1] == '@' {
            let header = string_skip(raw, 2);
            if let Some((o, n)) = hunk_start(&header) {
                old_no = o;
                new_no = n;
            }
            in_hunk = true;
        } else if !in_hunk {
        } else if raw.len() > 0 && raw[0] == '\\' {
            if out.len() > 0 {
                let last = out.len() - 1;
                out[last].no_newline = true;
                assert(rows_view(out@) =~= before.out.update(
                    before.out.len() - 1,
                    LineView { no_newline: true, ..before.out.last() },
                ));
            }
        } else {
            let kind = if raw.len() > 0 && raw[0] == '+' {
                LineKind::Add
            } else if raw.len() > 0 && raw[0] == '-' {
                LineKind::Del
            } else {
                LineKind::Context
            };
            let text = if raw.len() > 0 && (raw[0] == '+' || raw[0] == '-' || raw[0] == ' ') {
                string_of(raw, 1, raw.len())
            } else {
                string_of(raw, 0, raw.len())
            };
            proof {
                if raw@.len() > 0 && (raw@[0] == '+' || raw@[0] == '-' || raw@[0] == ' ') {
                    assert(raw@.subrange(1, raw@.len() as int) =~= raw@.drop_first());
                } else {
                    assert(raw@.subrange(0, raw@.len() as int) =~= raw@);
                }
            }
            let (old_at, new_at) = match kind {
                LineKind::Add => {
                    new_no = new_no + 1;
                    (0, new_no)
                },
                LineKind::Del => {
                    old_no = old_no + 1;
                    (old_no, 0)
                },
                LineKind::Context => {
                    old_no = old_no + 1;
                    new_no = new_no + 1;
                    (old_no, new_no)
                },
            };
            out.push(DiffLine { kind, old_no: old_at, new_no: new_at, text, no_newline: false });
            assert(rows_view(out@) =~= before.out.push(
                numbered(kind_of_line(r), text_of_line(r), before.old_no, before.new_no).0,
            ));
        }
        i += 1;
    }
    assert(ls.take(ls.len() as int) =~= ls);
    out
}

/// `v` from its `n`th character on.
fn string_skip(v: &Vec<char>, n: usize) -> (out: Vec<char>)
    requires
        n <= v@.len(),
    ensures
        out@ == v@.skip(n as int),
{
    let mut out: Vec<char> = Vec::new();
    let mut i: usize = n;
    while i < v.len()
        invariant
            n <= i <= v.len(),
            out@ == v@.subrange(n as int, i as int),
        decreases v.len() - i,
    {
        out.push(v[i]);
        assert(out@ =~= v@.subrange(n as int, i + 1));
        i += 1;
    }
    assert(v@.subrange(n as int, v@.len() as int) =~= v@.skip(n as int));
    out
}

// ---- small pieces -------------------------------------------------------

/// How much of a band one tap gives back. A band worth two steps or less
/// opens in one.
pub fn expand_to(revealed: usize, hidden: usize) -> (r: usize)
    requires
        revealed + hidden <= usize::MAX,
    ensures
        r == if hidden <= 2 * EXPAND_STEP {
            revealed + hidden
        } else {
            revealed + EXPAND_STEP
        },
{
    if hidden <= 2 * EXPAND_STEP {
        revealed + hidden
    } else {
        revealed + EXPAND_STEP
    }
}

pub open spec fn fnv_step(hash: u64, byte: u8) -> u64 {
    vstd::wrapping::u64_specs::wrapping_mul(hash ^ (byte as u64), 0x0000_0100_0000_01b3)
}

/// FNV-1a over `bytes`.
pub open spec fn fnv1a(bytes: Seq<u8>) -> u64 {
    bytes.fold_left(0xcbf2_9ce4_8422_2325u64, |h: u64, b: u8| fnv_step(h, b))
}

/// FNV-1a over a patch's UTF-8 bytes, so "reviewed" can be pinned to the
/// exact bytes that were reviewed and survive an app restart.
pub fn fingerprint(patch: &str) -> (h: u64)
    ensures
        h == fnv1a(vstd::utf8::encode_utf8(patch@)),
{
    let bytes = patch.as_bytes();
    let mut hash: u64 = 0xcbf2_9ce4_8422_2325;
    let mut i: usize = 0;
    assert(bytes@.take(0) =~= Seq::<u8>::empty());
    while i < bytes.len()
        invariant
            i <= bytes@.len(),
            bytes@ == vstd::utf8::encode_utf8(patch@),
            hash == fnv1a(bytes@.take(i as int)),
        decreases bytes@.len() - i,
    {
        assert(bytes@.take(i + 1).drop_last() =~= bytes@.take(i as int));
        hash ^= bytes[i] as u64;
        hash = hash.wrapping_mul(0x0000_0100_0000_01b3);
        i += 1;
    }
    assert(bytes@.take(bytes@.len() as int) =~= bytes@);
    hash
}

/// The index of the last `c` in `s`.
pub open spec fn last_index_of(s: Seq<char>, c: char) -> Option<int>
    decreases s.len(),
{
    if s.len() == 0 {
        None
    } else if s.last() == c {
        Some(s.len() - 1)
    } else {
        last_index_of(s.drop_last(), c)
    }
}

/// The directory part of a path (through its last `/`) and the file name.
pub open spec fn split_path_spec(path: Seq<char>) -> (Seq<char>, Seq<char>) {
    match last_index_of(path, '/') {
        Some(i) => (path.take(i + 1), path.skip(i + 1)),
        None => (Seq::empty(), path),
    }
}

proof fn lemma_last_index_in_range(s: Seq<char>, c: char)
    ensures
        last_index_of(s, c) matches Some(i) ==> 0 <= i < s.len() && s[i] == c,
    decreases s.len(),
{
    if s.len() > 0 && s.last() != c {
        lemma_last_index_in_range(s.drop_last(), c);
    }
}

/// Split a path into the part that may be truncated and the part that may
/// not — the filename is what a reader scans for.
pub fn split_path(path: &str) -> (r: (&str, &str))
    ensures
        r.0@ == split_path_spec(path@).0,
        r.1@ == split_path_spec(path@).1,
{
    let chars = chars_of(path);
    let n = chars.len();
    let mut i = n;
    assert(path@.take(n as int) =~= path@);
    while i > 0
        invariant
            i <= n,
            n == path@.len(),
            chars@ == path@,
            last_index_of(path@, '/') == last_index_of(path@.take(i as int), '/'),
        decreases i,
    {
        let ghost t = path@.take(i as int);
        assert(t.drop_last() =~= path@.take(i - 1));
        if chars[i - 1] == '/' {
            let dir = path.substring_char(0, i);
            let name = path.substring_char(i, n);
            assert(path@.subrange(0, i as int) =~= path@.take(i as int));
            assert(path@.subrange(i as int, n as int) =~= path@.skip(i as int));
            return (dir, name);
        }
        i -= 1;
    }
    assert(path@.take(0) =~= Seq::<char>::empty());
    let whole = path.substring_char(0, n);
    assert(path@.subrange(0, n as int) =~= path@);
    proof {
        reveal_strlit("");
    }
    ("", whole)
}

// ---- two whole texts ---------------------------------------------------

/// One row of an edit before it is numbered: what it is and what it says.
pub struct Edit {
    pub kind: LineKind,
    pub text: Seq<char>,
}

/// Every line of `ls` as a row of the one kind.
pub open spec fn edits_of(kind: LineKind, ls: Seq<Seq<char>>) -> Seq<Edit> {
    ls.map_values(|t: Seq<char>| Edit { kind, text: t })
}

/// How many lines `a` and `b` share from `k` on, counted from `k`'s end.
pub open spec fn head_from(a: Seq<Seq<char>>, b: Seq<Seq<char>>, k: nat) -> nat
    decreases a.len() - k,
{
    if k < a.len() && k < b.len() && a[k as int] == b[k as int] {
        head_from(a, b, k + 1)
    } else {
        k
    }
}

/// The length of the run of lines `a` and `b` start with in common.
pub open spec fn head_len(a: Seq<Seq<char>>, b: Seq<Seq<char>>) -> nat {
    head_from(a, b, 0)
}

/// How many lines `a` and `b` share at their ends, given that `t` already
/// match and that the first `h` lines are spoken for.
pub open spec fn tail_from(a: Seq<Seq<char>>, b: Seq<Seq<char>>, h: nat, t: nat) -> nat
    decreases a.len() - h - t,
{
    if h + t < a.len() && h + t < b.len() && a[a.len() - 1 - t] == b[b.len() - 1 - t] {
        tail_from(a, b, h, t + 1)
    } else {
        t
    }
}

/// The length of the run of lines `a` and `b` end with in common, not
/// reaching into the run they start with.
pub open spec fn tail_len(a: Seq<Seq<char>>, b: Seq<Seq<char>>) -> nat {
    tail_from(a, b, head_len(a, b), 0)
}

/// The length of a longest common subsequence of `a[i..]` and `b[j..]`, by
/// the textbook recurrence.
pub open spec fn lcs(a: Seq<Seq<char>>, b: Seq<Seq<char>>, i: nat, j: nat) -> nat
    decreases a.len() + b.len() - i - j,
{
    if i >= a.len() || j >= b.len() {
        0
    } else if a[i as int] == b[j as int] {
        1 + lcs(a, b, i + 1, j + 1)
    } else {
        let d = lcs(a, b, i + 1, j);
        let r = lcs(a, b, i, j + 1);
        if d >= r {
            d
        } else {
            r
        }
    }
}

/// The rows that interleave `a[i..]` and `b[j..]` on their longest common
/// subsequence: a shared line is context, and at a tie the deletion goes
/// first.
pub open spec fn walk(a: Seq<Seq<char>>, b: Seq<Seq<char>>, i: nat, j: nat) -> Seq<Edit>
    decreases a.len() + b.len() - i - j,
{
    if i >= a.len() {
        edits_of(LineKind::Add, b.skip(j as int))
    } else if j >= b.len() {
        edits_of(LineKind::Del, a.skip(i as int))
    } else if a[i as int] == b[j as int] {
        seq![Edit { kind: LineKind::Context, text: a[i as int] }] + walk(a, b, i + 1, j + 1)
    } else if lcs(a, b, i + 1, j) >= lcs(a, b, i, j + 1) {
        seq![Edit { kind: LineKind::Del, text: a[i as int] }] + walk(a, b, i + 1, j)
    } else {
        seq![Edit { kind: LineKind::Add, text: b[j as int] }] + walk(a, b, i, j + 1)
    }
}

/// What is left of `a` between the shared head and the shared tail.
pub open spec fn mid_old(a: Seq<Seq<char>>, b: Seq<Seq<char>>) -> Seq<Seq<char>> {
    a.subrange(head_len(a, b) as int, a.len() - tail_len(a, b))
}

/// What is left of `b` between the shared head and the shared tail.
pub open spec fn mid_new(a: Seq<Seq<char>>, b: Seq<Seq<char>>) -> Seq<Seq<char>> {
    b.subrange(head_len(a, b) as int, b.len() - tail_len(a, b))
}

/// Whether the middles are small enough to pair.
pub open spec fn pairable(ma: Seq<Seq<char>>, mb: Seq<Seq<char>>) -> bool {
    ma.len() * mb.len() <= PAIR_BUDGET
}

/// The rows of an edit from `a` to `b`, before numbering: the shared head as
/// context, the middles paired (or, past the budget, every removal then
/// every addition), the shared tail as context.
pub open spec fn between_script(a: Seq<Seq<char>>, b: Seq<Seq<char>>) -> Seq<Edit> {
    let ma = mid_old(a, b);
    let mb = mid_new(a, b);
    let mid = if pairable(ma, mb) {
        walk(ma, mb, 0, 0)
    } else {
        edits_of(LineKind::Del, ma) + edits_of(LineKind::Add, mb)
    };
    edits_of(LineKind::Context, a.take(head_len(a, b) as int)) + mid + edits_of(
        LineKind::Context,
        a.skip(a.len() - tail_len(a, b)),
    )
}

/// Rows numbered in order from zero on both sides, with the counters they
/// leave behind.
pub open spec fn number_rows(s: Seq<Edit>) -> (Seq<LineView>, int, int)
    decreases s.len(),
{
    if s.len() == 0 {
        (Seq::empty(), 0, 0)
    } else {
        let (rows, o, n) = number_rows(s.drop_last());
        let (row, o2, n2) = numbered(s.last().kind, s.last().text, o, n);
        (rows.push(row), o2, n2)
    }
}

/// The rows [`between`] produces for the two halves of an edit.
pub open spec fn between_spec(old: Seq<char>, new: Seq<char>) -> Seq<LineView> {
    number_rows(between_script(lines(old), lines(new))).0
}

/// `out` and the two counters are the numbered rows of `done`.
pub open spec fn tracks(out: Seq<DiffLine>, old_no: u32, new_no: u32, done: Seq<Edit>) -> bool {
    &&& rows_view(out) == number_rows(done).0
    &&& old_no as int == number_rows(done).1
    &&& new_no as int == number_rows(done).2
}

pub open spec fn line_views(v: Seq<Vec<char>>) -> Seq<Seq<char>> {
    v.map_values(|x: Vec<char>| x@)
}

proof fn lemma_head_bounds(a: Seq<Seq<char>>, b: Seq<Seq<char>>, k: nat)
    requires
        k <= a.len(),
        k <= b.len(),
    ensures
        k <= head_from(a, b, k) <= a.len(),
        head_from(a, b, k) <= b.len(),
    decreases a.len() - k,
{
    if k < a.len() && k < b.len() && a[k as int] == b[k as int] {
        lemma_head_bounds(a, b, k + 1);
    }
}

proof fn lemma_tail_bounds(a: Seq<Seq<char>>, b: Seq<Seq<char>>, h: nat, t: nat)
    requires
        h + t <= a.len(),
        h + t <= b.len(),
    ensures
        t <= tail_from(a, b, h, t),
        h + tail_from(a, b, h, t) <= a.len(),
        h + tail_from(a, b, h, t) <= b.len(),
    decreases a.len() - h - t,
{
    if h + t < a.len() && h + t < b.len() && a[a.len() - 1 - t] == b[b.len() - 1 - t] {
        lemma_tail_bounds(a, b, h, t + 1);
    }
}

/// The head and the tail fit inside both texts without overlapping.
pub(crate) proof fn lemma_trim_bounds(a: Seq<Seq<char>>, b: Seq<Seq<char>>)
    ensures
        head_len(a, b) + tail_len(a, b) <= a.len(),
        head_len(a, b) + tail_len(a, b) <= b.len(),
{
    lemma_head_bounds(a, b, 0);
    lemma_tail_bounds(a, b, head_len(a, b), 0);
}

proof fn lemma_lcs_bound(a: Seq<Seq<char>>, b: Seq<Seq<char>>, i: nat, j: nat)
    requires
        i <= a.len(),
        j <= b.len(),
    ensures
        lcs(a, b, i, j) <= a.len() - i,
        lcs(a, b, i, j) <= b.len() - j,
    decreases a.len() + b.len() - i - j,
{
    if i < a.len() && j < b.len() {
        lemma_lcs_bound(a, b, i + 1, j + 1);
        lemma_lcs_bound(a, b, i + 1, j);
        lemma_lcs_bound(a, b, i, j + 1);
    }
}

/// Whether two lines are the same characters.
fn same_line(x: &Vec<char>, y: &Vec<char>) -> (r: bool)
    ensures
        r == (x@ == y@),
{
    if x.len() != y.len() {
        return false;
    }
    let mut k: usize = 0;
    while k < x.len()
        invariant
            k <= x.len(),
            x@.len() == y@.len(),
            forall|q: int| 0 <= q < k ==> x@[q] == y@[q],
        decreases x.len() - k,
    {
        if x[k] != y[k] {
            assert(x@[k as int] != y@[k as int]);
            return false;
        }
        k += 1;
    }
    assert(x@ =~= y@);
    true
}

/// One row, numbering the side or sides it belongs to.
fn push(
    out: &mut Vec<DiffLine>,
    kind: LineKind,
    text: &Vec<char>,
    old_no: &mut u32,
    new_no: &mut u32,
    Ghost(done): Ghost<Seq<Edit>>,
)
    requires
        tracks(old(out)@, *old(old_no), *old(new_no), done),
        !(kind is Add) ==> *old(old_no) < 0xffff_ffff,
        !(kind is Del) ==> *old(new_no) < 0xffff_ffff,
    ensures
        tracks(final(out)@, *final(old_no), *final(new_no), done.push(Edit { kind, text: text@ })),
        *final(old_no) == if kind is Add {
            *old(old_no) as int
        } else {
            *old(old_no) + 1
        },
        *final(new_no) == if kind is Del {
            *old(new_no) as int
        } else {
            *old(new_no) + 1
        },
{
    let (old_at, new_at) = match kind {
        LineKind::Add => {
            *new_no = *new_no + 1;
            (0, *new_no)
        },
        LineKind::Del => {
            *old_no = *old_no + 1;
            (*old_no, 0)
        },
        LineKind::Context => {
            *old_no = *old_no + 1;
            *new_no = *new_no + 1;
            (*old_no, *new_no)
        },
    };
    let text = crate::text::string_from(text);
    let ghost before = rows_view(out@);
    out.push(DiffLine { kind, old_no: old_at, new_no: new_at, text, no_newline: false });
    proof {
        let e = Edit { kind, text: text@ };
        assert(done.push(e).drop_last() =~= done);
        assert(rows_view(out@) =~= before.push(out@.last()@));
    }
}

/// The table the pairing walk reads: row `k` holds `lcs` from line
/// `m - k` of the old run, entry `t` of it from line `n - t` of the new
/// one.
fn lcs_table(
    olds: &Vec<Vec<char>>,
    news: &Vec<Vec<char>>,
    lo_a: usize,
    hi_a: usize,
    lo_b: usize,
    hi_b: usize,
) -> (table: Vec<Vec<u32>>)
    requires
        lo_a <= hi_a <= olds@.len(),
        lo_b <= hi_b <= news@.len(),
        hi_a - lo_a <= 0xffff_ffff,
    ensures
        table@.len() == hi_a - lo_a + 1,
        forall|k: int| 0 <= k < table@.len() ==> #[trigger] table@[k]@.len() == hi_b - lo_b + 1,
        forall|k: int, t: int|
            0 <= k < table@.len() && 0 <= t <= hi_b - lo_b ==> #[trigger] table@[k]@[t] == lcs(
                line_views(olds@).subrange(lo_a as int, hi_a as int),
                line_views(news@).subrange(lo_b as int, hi_b as int),
                (hi_a - lo_a - k) as nat,
                (hi_b - lo_b - t) as nat,
            ),
{
    let ghost a = line_views(olds@).subrange(lo_a as int, hi_a as int);
    let ghost b = line_views(news@).subrange(lo_b as int, hi_b as int);
    let m = hi_a - lo_a;
    let n = hi_b - lo_b;
    let mut bottom: Vec<u32> = Vec::new();
    bottom.push(0);
    let mut t: usize = 0;
    while t < n
        invariant
            t <= n,
            bottom@.len() == t + 1,
            forall|q: int| 0 <= q < bottom@.len() ==> bottom@[q] == 0,
        decreases n - t,
    {
        bottom.push(0);
        t += 1;
    }
    let mut table: Vec<Vec<u32>> = Vec::new();
    table.push(bottom);
    let mut k: usize = 0;
    while k < m
        invariant
            m == hi_a - lo_a,
            n == hi_b - lo_b,
            lo_a <= hi_a <= olds@.len(),
            lo_b <= hi_b <= news@.len(),
            m <= 0xffff_ffff,
            a == line_views(olds@).subrange(lo_a as int, hi_a as int),
            b == line_views(news@).subrange(lo_b as int, hi_b as int),
            k <= m,
            table@.len() == k + 1,
            forall|r: int| 0 <= r < table@.len() ==> #[trigger] table@[r]@.len() == n + 1,
            forall|r: int, q: int|
                0 <= r < table@.len() && 0 <= q <= n ==> #[trigger] table@[r]@[q] == lcs(
                    a,
                    b,
                    (m - r) as nat,
                    (n - q) as nat,
                ),
        decreases m - k,
    {
        let i = m - 1 - k;
        let mut row: Vec<u32> = Vec::new();
        row.push(0);
        let mut t: usize = 0;
        while t < n
            invariant
                m == hi_a - lo_a,
                n == hi_b - lo_b,
                lo_a <= hi_a <= olds@.len(),
                lo_b <= hi_b <= news@.len(),
                m <= 0xffff_ffff,
                a == line_views(olds@).subrange(lo_a as int, hi_a as int),
                b == line_views(news@).subrange(lo_b as int, hi_b as int),
                k < m,
                i == m - 1 - k,
                table@.len() == k + 1,
                forall|r: int| 0 <= r < table@.len() ==> #[trigger] table@[r]@.len() == n + 1,
                forall|r: int, q: int|
                    0 <= r < table@.len() && 0 <= q <= n ==> #[trigger] table@[r]@[q] == lcs(
                        a,
                        b,
                        (m - r) as nat,
                        (n - q) as nat,
                    ),
                t <= n,
                row@.len() == t + 1,
                forall|q: int| 0 <= q < row@.len() ==> #[trigger] row@[q] == lcs(
                    a,
                    b,
                    i as nat,
                    (n - q) as nat,
                ),
            decreases n - t,
        {
            let j = n - 1 - t;
            proof {
                lemma_lcs_bound(a, b, (i + 1) as nat, (j + 1) as nat);
                assert(a[i as int] == olds@[lo_a + i]@);
                assert(b[j as int] == news@[lo_b + j]@);
            }
            let v = if same_line(&olds[lo_a + i], &news[lo_b + j]) {
                table[k][t] + 1
            } else {
                let d = table[k][t + 1];
                let r = row[t];
                if d >= r {
                    d
                } else {
                    r
                }
            };
            row.push(v);
            t += 1;
        }
        table.push(row);
        k += 1;
    }
    table
}

/// Interleave two runs, `olds[lo_a..hi_a]` and `news[lo_b..hi_b]`, on
/// their longest common subsequence.
///
/// The table is filled from the end so the walk back out is forwards and
/// the rows come out in file order. `>=` at the tie rather than `>` is what
/// puts a deletion before the addition that replaces it, which is the order
/// every patch is read in.
fn pair(
    out: &mut Vec<DiffLine>,
    olds: &Vec<Vec<char>>,
    news: &Vec<Vec<char>>,
    lo_a: usize,
    hi_a: usize,
    lo_b: usize,
    hi_b: usize,
    old_no: &mut u32,
    new_no: &mut u32,
    Ghost(done): Ghost<Seq<Edit>>,
)
    requires
        lo_a <= hi_a <= olds@.len(),
        lo_b <= hi_b <= news@.len(),
        tracks(old(out)@, *old(old_no), *old(new_no), done),
        *old(old_no) + (hi_a - lo_a) <= 0xffff_ffff,
        *old(new_no) + (hi_b - lo_b) <= 0xffff_ffff,
    ensures
        tracks(
            final(out)@,
            *final(old_no),
            *final(new_no),
            done + walk(
                line_views(olds@).subrange(lo_a as int, hi_a as int),
                line_views(news@).subrange(lo_b as int, hi_b as int),
                0,
                0,
            ),
        ),
        *final(old_no) == *old(old_no) + (hi_a - lo_a),
        *final(new_no) == *old(new_no) + (hi_b - lo_b),
{
    let ghost a = line_views(olds@).subrange(lo_a as int, hi_a as int);
    let ghost b = line_views(news@).subrange(lo_b as int, hi_b as int);
    let ghost target = done + walk(a, b, 0, 0);
    let ghost o0 = *old_no as int;
    let ghost n0 = *new_no as int;
    let m = hi_a - lo_a;
    let n = hi_b - lo_b;
    let table = lcs_table(olds, news, lo_a, hi_a, lo_b, hi_b);
    let ghost mut cur = done;
    let mut i: usize = 0;
    let mut j: usize = 0;
    assert(done + walk(a, b, 0, 0) == target);
    while i < m && j < n
        invariant
            m == hi_a - lo_a,
            n == hi_b - lo_b,
            lo_a <= hi_a <= olds@.len(),
            lo_b <= hi_b <= news@.len(),
            a == line_views(olds@).subrange(lo_a as int, hi_a as int),
            b == line_views(news@).subrange(lo_b as int, hi_b as int),
            table@.len() == m + 1,
            forall|r: int| 0 <= r < table@.len() ==> #[trigger] table@[r]@.len() == n + 1,
            forall|r: int, q: int|
                0 <= r < table@.len() && 0 <= q <= n ==> #[trigger] table@[r]@[q] == lcs(
                    a,
                    b,
                    (m - r) as nat,
                    (n - q) as nat,
                ),
            i <= m,
            j <= n,
            o0 + m <= 0xffff_ffff,
            n0 + n <= 0xffff_ffff,
            *old_no as int == o0 + i,
            *new_no as int == n0 + j,
            tracks(out@, *old_no, *new_no, cur),
            cur + walk(a, b, i as nat, j as nat) == target,
        decreases m + n - i - j,
    {
        proof {
            assert(a[i as int] == olds@[lo_a + i]@);
            assert(b[j as int] == news@[lo_b + j]@);
        }
        if same_line(&olds[lo_a + i], &news[lo_b + j]) {
            let ghost e = Edit { kind: LineKind::Context, text: a[i as int] };
            push(out, LineKind::Context, &olds[lo_a + i], old_no, new_no, Ghost(cur));
            proof {
                assert(cur.push(e) + walk(a, b, (i + 1) as nat, (j + 1) as nat) =~= cur + walk(
                    a,
                    b,
                    i as nat,
                    j as nat,
                ));
                cur = cur.push(e);
            }
            i += 1;
            j += 1;
        } else if table[m - (i + 1)][n - j] >= table[m - i][n - (j + 1)] {
            let ghost e = Edit { kind: LineKind::Del, text: a[i as int] };
            push(out, LineKind::Del, &olds[lo_a + i], old_no, new_no, Ghost(cur));
            proof {
                assert(cur.push(e) + walk(a, b, (i + 1) as nat, j as nat) =~= cur + walk(
                    a,
                    b,
                    i as nat,
                    j as nat,
                ));
                cur = cur.push(e);
            }
            i += 1;
        } else {
            let ghost e = Edit { kind: LineKind::Add, text: b[j as int] };
            push(out, LineKind::Add, &news[lo_b + j], old_no, new_no, Ghost(cur));
            proof {
                assert(cur.push(e) + walk(a, b, i as nat, (j + 1) as nat) =~= cur + walk(
                    a,
                    b,
                    i as nat,
                    j as nat,
                ));
                cur = cur.push(e);
            }
            j += 1;
        }
    }
    proof {
        if i >= m {
            assert(a.skip(i as int) =~= Seq::<Seq<char>>::empty());
        } else {
            assert(b.skip(j as int) =~= Seq::<Seq<char>>::empty());
        }
        assert(walk(a, b, i as nat, j as nat) =~= edits_of(LineKind::Del, a.skip(i as int))
            + edits_of(LineKind::Add, b.skip(j as int)));
    }
    while i < m
        invariant
            m == hi_a - lo_a,
            n == hi_b - lo_b,
            lo_a <= hi_a <= olds@.len(),
            a == line_views(olds@).subrange(lo_a as int, hi_a as int),
            b == line_views(news@).subrange(lo_b as int, hi_b as int),
            i <= m,
            j <= n,
            o0 + m <= 0xffff_ffff,
            n0 + n <= 0xffff_ffff,
            *old_no as int == o0 + i,
            *new_no as int == n0 + j,
            tracks(out@, *old_no, *new_no, cur),
            cur + edits_of(LineKind::Del, a.skip(i as int)) + edits_of(
                LineKind::Add,
                b.skip(j as int),
            ) == target,
        decreases m - i,
    {
        let ghost e = Edit { kind: LineKind::Del, text: a[i as int] };
        assert(a[i as int] == olds@[lo_a + i]@);
        push(out, LineKind::Del, &olds[lo_a + i], old_no, new_no, Ghost(cur));
        proof {
            assert(edits_of(LineKind::Del, a.skip(i as int)) =~= seq![e] + edits_of(
                LineKind::Del,
                a.skip(i + 1),
            ));
            assert(cur.push(e) + edits_of(LineKind::Del, a.skip(i + 1)) =~= cur + edits_of(
                LineKind::Del,
                a.skip(i as int),
            ));
            cur = cur.push(e);
        }
        i += 1;
    }
    assert(a.skip(i as int) =~= Seq::<Seq<char>>::empty());
    assert(cur + edits_of(LineKind::Del, a.skip(i as int)) =~= cur);
    while j < n
        invariant
            n == hi_b - lo_b,
            lo_b <= hi_b <= news@.len(),
            b == line_views(news@).subrange(lo_b as int, hi_b as int),
            j <= n,
            n0 + n <= 0xffff_ffff,
            *new_no as int == n0 + j,
            *old_no as int == o0 + (hi_a - lo_a),
            tracks(out@, *old_no, *new_no, cur),
            cur + edits_of(LineKind::Add, b.skip(j as int)) == target,
        decreases n - j,
    {
        let ghost e = Edit { kind: LineKind::Add, text: b[j as int] };
        assert(b[j as int] == news@[lo_b + j]@);
        push(out, LineKind::Add, &news[lo_b + j], old_no, new_no, Ghost(cur));
        proof {
            assert(edits_of(LineKind::Add, b.skip(j as int)) =~= seq![e] + edits_of(
                LineKind::Add,
                b.skip(j + 1),
            ));
            assert(cur.push(e) + edits_of(LineKind::Add, b.skip(j + 1)) =~= cur + edits_of(
                LineKind::Add,
                b.skip(j as int),
            ));
            cur = cur.push(e);
        }
        j += 1;
    }
    assert(b.skip(j as int) =~= Seq::<Seq<char>>::empty());
    assert(cur + edits_of(LineKind::Add, b.skip(j as int)) =~= cur);
}

/// The two halves of a file edit, as the numbered rows [`parse`] produces
/// from a patch.
///
/// Prefix and suffix first, then a pairing walk over what is left: both
/// halves are usually the whole file, and trimming the matching ends keeps
/// the walk small. Past [`PAIR_BUDGET`] cells there is nothing to pair, and
/// the middle comes out as every removal, then every addition. `no_newline`
/// is `false` on every row: the two texts do not say which side lost its
/// final newline.
pub fn between(old: &str, new: &str) -> (out: Vec<DiffLine>)
    requires
        lines(old@).len() <= 0xffff_ffff,
        lines(new@).len() <= 0xffff_ffff,
    ensures
        rows_view(out@) == between_spec(old@, new@),
{
    let olds = split_lines(&chars_of(old));
    let news = split_lines(&chars_of(new));
    let ghost a = lines(old@);
    let ghost b = lines(new@);
    proof {
        assert(line_views(olds@) =~= a);
        assert(line_views(news@) =~= b);
        lemma_trim_bounds(a, b);
    }
    let la = olds.len();
    let lb = news.len();

    let mut head: usize = 0;
    loop
        invariant
            la == olds@.len(),
            lb == news@.len(),
            line_views(olds@) == a,
            line_views(news@) == b,
            head <= la,
            head <= lb,
            head_from(a, b, head as nat) == head_len(a, b),
        ensures
            head == head_len(a, b),
        decreases la - head,
    {
        if head >= la || head >= lb {
            break;
        }
        assert(a[head as int] == olds@[head as int]@ && b[head as int] == news@[head as int]@);
        if !same_line(&olds[head], &news[head]) {
            break;
        }
        head += 1;
    }

    let mut tail: usize = 0;
    loop
        invariant
            la == olds@.len(),
            lb == news@.len(),
            line_views(olds@) == a,
            line_views(news@) == b,
            head == head_len(a, b),
            head + tail <= la,
            head + tail <= lb,
            tail_from(a, b, head as nat, tail as nat) == tail_len(a, b),
        ensures
            tail == tail_len(a, b),
        decreases la - head - tail,
    {
        if head + tail >= la || head + tail >= lb {
            break;
        }
        assert(a[la - 1 - tail] == olds@[la - 1 - tail]@ && b[lb - 1 - tail]
            == news@[lb - 1 - tail]@);
        if !same_line(&olds[la - 1 - tail], &news[lb - 1 - tail]) {
            break;
        }
        tail += 1;
    }

    let ghost ma = mid_old(a, b);
    let ghost mb = mid_new(a, b);
    let ghost pre = edits_of(LineKind::Context, a.take(head as int));
    let mut out: Vec<DiffLine> = Vec::new();
    let mut old_no: u32 = 0;
    let mut new_no: u32 = 0;
    let ghost mut cur: Seq<Edit> = Seq::empty();
    assert(rows_view(out@) =~= Seq::<LineView>::empty());

    let mut k: usize = 0;
    while k < head
        invariant
            la == olds@.len(),
            la <= 0xffff_ffff,
            line_views(olds@) == a,
            head <= la,
            k <= head,
            old_no == k,
            new_no == k,
            tracks(out@, old_no, new_no, cur),
            cur == edits_of(LineKind::Context, a.take(k as int)),
        decreases head - k,
    {
        let ghost e = Edit { kind: LineKind::Context, text: a[k as int] };
        assert(a[k as int] == olds@[k as int]@);
        push(&mut out, LineKind::Context, &olds[k], &mut old_no, &mut new_no, Ghost(cur));
        proof {
            assert(edits_of(LineKind::Context, a.take(k + 1)) =~= cur.push(e));
            cur = cur.push(e);
        }
        k += 1;
    }
    assert(cur == pre);

    let m = la - head - tail;
    let n = lb - head - tail;
    let fits = match m.checked_mul(n) {
        Some(cells) => cells <= PAIR_BUDGET,
        None => false,
    };
    assert(ma.len() == m && mb.len() == n);
    assert(fits == pairable(ma, mb));
    if fits {
        assert(line_views(olds@).subrange(head as int, (la - tail) as int) == ma);
        assert(line_views(news@).subrange(head as int, (lb - tail) as int) == mb);
        pair(
            &mut out,
            &olds,
            &news,
            head,
            la - tail,
            head,
            lb - tail,
            &mut old_no,
            &mut new_no,
            Ghost(cur),
        );
        proof {
            cur = cur + walk(ma, mb, 0, 0);
        }
    } else {
        let mut q: usize = 0;
        while q < m
            invariant
                la == olds@.len(),
                la <= 0xffff_ffff,
                lb <= 0xffff_ffff,
                line_views(olds@) == a,
                head + tail <= la,
                head + tail <= lb,
                m == la - head - tail,
                ma == a.subrange(head as int, la - tail),
                q <= m,
                old_no == head + q,
                new_no == head,
                tracks(out@, old_no, new_no, cur),
                cur == pre + edits_of(LineKind::Del, ma.take(q as int)),
            decreases m - q,
        {
            let ghost e = Edit { kind: LineKind::Del, text: ma[q as int] };
            assert(ma[q as int] == olds@[head + q]@);
            push(&mut out, LineKind::Del, &olds[head + q], &mut old_no, &mut new_no, Ghost(cur));
            proof {
                assert(pre + edits_of(LineKind::Del, ma.take(q + 1)) =~= cur.push(e));
                cur = cur.push(e);
            }
            q += 1;
        }
        assert(ma.take(m as int) =~= ma);
        let mut q: usize = 0;
        while q < n
            invariant
                lb == news@.len(),
                lb <= 0xffff_ffff,
                line_views(news@) == b,
                head + tail <= lb,
                n == lb - head - tail,
                mb == b.subrange(head as int, lb - tail),
                q <= n,
                new_no == head + q,
                old_no == la - tail,
                tracks(out@, old_no, new_no, cur),
                cur == pre + edits_of(LineKind::Del, ma) + edits_of(LineKind::Add, mb.take(q as int)),
            decreases n - q,
        {
            let ghost e = Edit { kind: LineKind::Add, text: mb[q as int] };
            assert(mb[q as int] == news@[head + q]@);
            push(&mut out, LineKind::Add, &news[head + q], &mut old_no, &mut new_no, Ghost(cur));
            proof {
                assert(pre + edits_of(LineKind::Del, ma) + edits_of(LineKind::Add, mb.take(q + 1))
                    =~= cur.push(e));
                cur = cur.push(e);
            }
            q += 1;
        }
        assert(mb.take(n as int) =~= mb);
    }
    let ghost mid = cur.subrange(pre.len() as int, cur.len() as int);
    assert(cur =~= pre + mid);

    let mut k: usize = la - tail;
    assert(a.subrange(k as int, k as int) =~= Seq::<Seq<char>>::empty());
    assert(cur + edits_of(LineKind::Context, a.subrange((la - tail) as int, k as int)) =~= cur);
    let ghost done_mid = cur;
    while k < la
        invariant
            la == olds@.len(),
            la <= 0xffff_ffff,
            lb <= 0xffff_ffff,
            line_views(olds@) == a,
            tail <= la,
            tail <= lb,
            la - tail <= k <= la,
            old_no == k,
            new_no == lb - tail + (k - (la - tail)),
            tracks(out@, old_no, new_no, cur),
            cur == done_mid + edits_of(LineKind::Context, a.subrange((la - tail) as int, k as int)),
        decreases la - k,
    {
        let ghost e = Edit { kind: LineKind::Context, text: a[k as int] };
        assert(a[k as int] == olds@[k as int]@);
        push(&mut out, LineKind::Context, &olds[k], &mut old_no, &mut new_no, Ghost(cur));
        proof {
            assert(done_mid + edits_of(LineKind::Context, a.subrange((la - tail) as int, k + 1))
                =~= cur.push(e));
            cur = cur.push(e);
        }
        k += 1;
    }
    assert(a.subrange((la - tail) as int, la as int) =~= a.skip(la - tail));
    assert(cur =~= between_script(a, b));
    out
}

// ---- collapsing --------------------------------------------------------

/// Line `i` is within `CONTEXT` lines of a change, so it stays on screen.
pub open spec fn near_change(rows: Seq<LineView>, i: int) -> bool {
    exists|j: int|
        0 <= j < rows.len() && is_change(#[trigger] rows[j].kind) && j - CONTEXT <= i <= j
            + CONTEXT
}

/// Where the run of hidden-candidate lines that starts at `i` ends: the
/// first later line that stays on screen, or the end.
pub open spec fn run_end(rows: Seq<LineView>, i: int) -> int
    decreases rows.len() - i,
{
    if i >= rows.len() || near_change(rows, i) {
        i
    } else {
        run_end(rows, i + 1)
    }
}

/// The runs of unchanged lines worth collapsing, from line `i` on: every
/// maximal run of lines no change is near, longer than `2 * CONTEXT`.
pub open spec fn gaps_from(rows: Seq<LineView>, i: int) -> Seq<Gap>
    decreases rows.len() - i,
{
    if i < 0 || i >= rows.len() {
        Seq::empty()
    } else if near_change(rows, i) {
        gaps_from(rows, i + 1)
    } else {
        proof {
            lemma_run_end_bounds(rows, i);
        }
        let e = run_end(rows, i);
        (if e - i > 2 * CONTEXT {
            seq![Gap { start: i as usize, len: (e - i) as usize }]
        } else {
            Seq::empty()
        }) + gaps_from(rows, e)
    }
}

pub proof fn lemma_run_end_bounds(rows: Seq<LineView>, i: int)
    requires
        0 <= i,
    ensures
        i <= run_end(rows, i),
        i < rows.len() && !near_change(rows, i) ==> i < run_end(rows, i),
        i <= rows.len() ==> run_end(rows, i) <= rows.len(),
        forall|k: int| i <= k < run_end(rows, i) ==> !near_change(rows, k),
        run_end(rows, i) < rows.len() ==> near_change(rows, run_end(rows, i)),
    decreases rows.len() - i,
{
    if i < rows.len() && !near_change(rows, i) {
        lemma_run_end_bounds(rows, i + 1);
    }
}

/// Which lines stay on screen: those within `CONTEXT` of a change.
fn keep_marks(lines: &Vec<DiffLine>) -> (keep: Vec<bool>)
    ensures
        keep@.len() == lines@.len(),
        forall|i: int| 0 <= i < keep@.len() ==> #[trigger] keep@[i] == near_change(rows_view(lines@), i),
{
    let ghost rows = rows_view(lines@);
    let n = lines.len();
    let mut keep: Vec<bool> = Vec::new();
    let mut k: usize = 0;
    while k < n
        invariant
            k <= n,
            n == lines@.len(),
            keep@.len() == k,
            forall|i: int| 0 <= i < k ==> !#[trigger] keep@[i],
        decreases n - k,
    {
        keep.push(false);
        k += 1;
    }
    let mut j: usize = 0;
    while j < n
        invariant
            j <= n,
            n == lines@.len(),
            rows == rows_view(lines@),
            keep@.len() == n,
            forall|i: int|
                0 <= i < n ==> #[trigger] keep@[i] == exists|c: int|
                    0 <= c < j && is_change(#[trigger] rows[c].kind) && c - CONTEXT <= i <= c
                        + CONTEXT,
        decreases n - j,
    {
        if lines[j].changed() {
            let lo = if j >= CONTEXT {
                j - CONTEXT
            } else {
                0
            };
            let hi = if n - j > CONTEXT {
                j + CONTEXT + 1
            } else {
                n
            };
            let mut t = lo;
            let ghost before = keep@;
            assert(forall|i: int| 0 <= i < n ==> before[i] == exists|c: int|
                    0 <= c < j && is_change(#[trigger] rows[c].kind) && c - CONTEXT <= i <= c
                        + CONTEXT);
            while t < hi
                invariant
                    lo <= t <= hi <= n,
                    keep@.len() == n,
                    before.len() == n,
                    forall|i: int| 0 <= i < n && (i < lo || i >= t) ==> keep@[i] == before[i],
                    forall|i: int| lo <= i < t ==> keep@[i],
                decreases hi - t,
            {
                keep.set(t, true);
                t += 1;
            }
            assert(is_change(rows[j as int].kind));
            assert forall|i: int| 0 <= i < n implies #[trigger] keep@[i] == exists|c: int|
                0 <= c < j + 1 && is_change(#[trigger] rows[c].kind) && c - CONTEXT <= i <= c
                    + CONTEXT by {
                if lo <= i < hi {
                    assert(keep@[i]);
                    assert(is_change(rows[j as int].kind) && j - CONTEXT <= i <= j + CONTEXT);
                } else {
                    assert(keep@[i] == before[i]);
                    assert(before[i] == exists|c: int|
                        0 <= c < j && is_change(#[trigger] rows[c].kind) && c - CONTEXT <= i <= c
                            + CONTEXT);
                    if exists|c: int|
                        0 <= c < j + 1 && is_change(#[trigger] rows[c].kind) && c - CONTEXT <= i
                            <= c + CONTEXT {
                        let c = choose|c: int|
                            0 <= c < j + 1 && is_change(#[trigger] rows[c].kind) && c - CONTEXT
                                <= i <= c + CONTEXT;
                        assert(c != j);
                    }
                }
            }
        } else {
            assert forall|i: int| 0 <= i < n implies #[trigger] keep@[i] == exists|c: int|
                0 <= c < j + 1 && is_change(#[trigger] rows[c].kind) && c - CONTEXT <= i <= c
                    + CONTEXT by {
                if exists|c: int|
                    0 <= c < j + 1 && is_change(#[trigger] rows[c].kind) && c - CONTEXT <= i <= c
                        + CONTEXT {
                    let c = choose|c: int|
                        0 <= c < j + 1 && is_change(#[trigger] rows[c].kind) && c - CONTEXT <= i
                            <= c + CONTEXT;
                    assert(c != j);
                }
            }
        }
        j += 1;
    }
    keep
}

/// The runs of unchanged lines worth collapsing.
///
/// A run of `2 * CONTEXT` or fewer is left alone: the band that would hide
/// it is itself a row, so hiding four lines behind it saves three and costs
/// the reader a tap.
pub fn gaps(lines: &Vec<DiffLine>) -> (out: Vec<Gap>)
    ensures
        out@ == gaps_from(rows_view(lines@), 0),
{
    let ghost rows = rows_view(lines@);
    let keep = keep_marks(lines);
    let n = lines.len();
    let mut out: Vec<Gap> = Vec::new();
    let mut i: usize = 0;
    while i < n
        invariant
            i <= n,
            n == lines@.len(),
            rows == rows_view(lines@),
            keep@.len() == n,
            forall|k: int| 0 <= k < n ==> #[trigger] keep@[k] == near_change(rows, k),
            out@ + gaps_from(rows, i as int) == gaps_from(rows, 0),
        decreases n - i,
    {
        if keep[i] {
            i += 1;
            continue;
        }
        let start = i;
        proof {
            lemma_run_end_bounds(rows, start as int);
        }
        while i < n && !keep[i]
            invariant
                start <= i <= n,
                n == lines@.len(),
                rows == rows_view(lines@),
                keep@.len() == n,
                forall|k: int| 0 <= k < n ==> #[trigger] keep@[k] == near_change(rows, k),
                run_end(rows, start as int) == run_end(rows, i as int),
            decreases n - i,
        {
            i += 1;
        }
        assert(run_end(rows, i as int) == i);
        if i - start > 2 * CONTEXT {
            out.push(Gap { start, len: i - start });
        }
        assert(out@ + gaps_from(rows, i as int) =~= gaps_from(rows, 0));
    }
    assert(gaps_from(rows, n as int) =~= Seq::<Gap>::empty());
    assert(out@ + Seq::<Gap>::empty() =~= out@);
    out
}

/// How far the layout of one file has got.
pub struct Layout {
    pub blocks: Seq<Block>,
    pub budget: int,
    pub cursor: int,
    pub stopped: bool,
}

/// Rows from the cursor up to `end`, as far as the budget reaches.
pub open spec fn take_rows_spec(l: Layout, end: int) -> Layout {
    if end <= l.cursor {
        l
    } else {
        let take = if end - l.cursor <= l.budget {
            end - l.cursor
        } else {
            l.budget
        };
        if take > 0 {
            Layout {
                blocks: l.blocks.push(
                    Block::Rows { start: l.cursor as usize, end: (l.cursor + take) as usize },
                ),
                cursor: l.cursor + take,
                budget: l.budget - take,
                ..l
            }
        } else {
            l
        }
    }
}

/// How many of a gap's lines the reader has asked for.
pub open spec fn revealed_of(m: Map<usize, usize>, g: Gap) -> int {
    let asked: int = if m.dom().contains(g.start) {
        m[g.start] as int
    } else {
        0
    };
    if asked <= g.len {
        asked
    } else {
        g.len as int
    }
}

/// One gap laid out: rows up to where its band begins, then the band, with
/// the lines the reader asked for given back from both ends — the odd one
/// at the top. A fully revealed gap lays out nothing and its lines fall
/// into the run around it. Once the budget is spent the layout stops.
pub open spec fn layout_step(l: Layout, g: Gap, rows: Seq<LineView>, m: Map<usize, usize>) -> Layout {
    if l.stopped {
        l
    } else {
        let r = revealed_of(m, g);
        let top = (r + 1) / 2;
        let hidden_start = g.start + top;
        let hidden_end = g.start + g.len - (r - top);
        if hidden_end <= hidden_start {
            l
        } else {
            let t = take_rows_spec(l, hidden_start);
            if t.budget == 0 {
                Layout { stopped: true, ..t }
            } else {
                Layout {
                    blocks: t.blocks.push(
                        Block::Gap {
                            key: g.start,
                            hidden: (hidden_end - hidden_start) as usize,
                            at: rows[hidden_start].new_no,
                        },
                    ),
                    cursor: hidden_end,
                    ..t
                }
            }
        }
    }
}

pub open spec fn layout_start() -> Layout {
    Layout { blocks: Seq::empty(), budget: RENDER_CAP as int, cursor: 0, stopped: false }
}

pub open spec fn layout_gaps(gs: Seq<Gap>, rows: Seq<LineView>, m: Map<usize, usize>) -> Layout {
    gs.fold_left(layout_start(), |l: Layout, g: Gap| layout_step(l, g, rows, m))
}

/// The whole layout: the gaps, then rows to the end of the file.
pub open spec fn layout(gs: Seq<Gap>, rows: Seq<LineView>, m: Map<usize, usize>) -> Layout {
    take_rows_spec(layout_gaps(gs, rows, m), rows.len() as int)
}

pub open spec fn keeps_changes() -> spec_fn(LineView) -> bool {
    |l: LineView| is_change(l.kind)
}

/// The gaps lie inside the file.
pub open spec fn gaps_inside(gs: Seq<Gap>, n: int) -> bool {
    forall|k: int| 0 <= k < gs.len() ==> (#[trigger] gs[k]).start + gs[k].len <= n
}

/// What a layout in progress keeps true: the cursor inside the file, the
/// budget not below zero.
pub open spec fn layout_ok(l: Layout, n: int) -> bool {
    0 <= l.cursor <= n && 0 <= l.budget <= RENDER_CAP
}

fn take_rows(out: &mut Vec<Block>, cursor: &mut usize, end: usize, budget: &mut usize)
    ensures
        ({
            let l = take_rows_spec(
                Layout {
                    blocks: old(out)@,
                    budget: *old(budget) as int,
                    cursor: *old(cursor) as int,
                    stopped: false,
                },
                end as int,
            );
            &&& final(out)@ == l.blocks
            &&& *final(cursor) == l.cursor
            &&& *final(budget) == l.budget
        }),
{
    if end <= *cursor {
        return;
    }
    let take = if end - *cursor <= *budget {
        end - *cursor
    } else {
        *budget
    };
    if take > 0 {
        out.push(Block::Rows { start: *cursor, end: *cursor + take });
        *cursor = *cursor + take;
        *budget = *budget - take;
    }
}

/// Lay a file out: rows, collapsed bands, and the render cap.
///
/// `expanded` maps a gap's `start` to how many of its lines the reader has
/// asked for; those are given back from the band's two ends, so the
/// context grows towards the changes either side of it.
#[verifier::spinoff_prover]
#[verifier::rlimit(40)]
pub fn blocks(lines: &Vec<DiffLine>, gaps: &Vec<Gap>, expanded: &HashMap<usize, usize>) -> (r:
    Rendered)
    requires
        gaps_inside(gaps@, lines@.len() as int),
    ensures
        ({
            let rows = rows_view(lines@);
            let l = layout(gaps@, rows, expanded@);
            &&& r.blocks@ == l.blocks
            &&& r.dropped == rows.len() - l.cursor
            &&& r.dropped_changes == rows.skip(l.cursor).filter(keeps_changes()).len()
        }),
{
    broadcast use vstd::std_specs::hash::group_hash_axioms;

    let ghost rows = rows_view(lines@);
    let ghost m = expanded@;
    let n = lines.len();
    let mut out: Vec<Block> = Vec::new();
    let mut budget: usize = RENDER_CAP;
    let mut cursor: usize = 0;
    let mut stopped = false;
    let mut k: usize = 0;
    assert(gaps@.take(0) =~= Seq::<Gap>::empty());
    while k < gaps.len() && !stopped
        invariant
            k <= gaps.len(),
            n == lines@.len(),
            rows == rows_view(lines@),
            m == expanded@,
            gaps_inside(gaps@, n as int),
            layout_ok(
                Layout { blocks: out@, budget: budget as int, cursor: cursor as int, stopped },
                n as int,
            ),
            layout_gaps(gaps@.take(k as int), rows, m) == (Layout {
                blocks: out@,
                budget: budget as int,
                cursor: cursor as int,
                stopped,
            }),
        decreases gaps.len() - k,
    {
        assert(gaps@.take(k + 1).drop_last() =~= gaps@.take(k as int));
        let gap = gaps[k];
        assert(gap == gaps@[k as int]);
        let asked: usize = match expanded.get(&gap.start) {
            Some(v) => *v,
            None => 0,
        };
        let revealed = if asked <= gap.len {
            asked
        } else {
            gap.len
        };
        assert(revealed == revealed_of(m, gap));
        let top = revealed / 2 + revealed % 2;
        let hidden_start = gap.start + top;
        let hidden_end = gap.start + gap.len - (revealed - top);
        if hidden_end <= hidden_start {
            k += 1;
            continue;
        }
        take_rows(&mut out, &mut cursor, hidden_start, &mut budget);
        if budget == 0 {
            stopped = true;
            k += 1;
            continue;
        }
        out.push(Block::Gap { key: gap.start, hidden: hidden_end - hidden_start, at: lines[hidden_start].new_no });
        cursor = hidden_end;
        k += 1;
    }
    let ghost lg = layout_gaps(gaps@, rows, m);
    proof {
        if stopped {
            lemma_layout_stays_stopped(gaps@, rows, m, k as int);
        } else {
            assert(gaps@.take(k as int) =~= gaps@);
        }
    }
    take_rows(&mut out, &mut cursor, n, &mut budget);
    let dropped = n - cursor;
    let mut changes: usize = 0;
    let mut t: usize = cursor;
    let ghost tail = rows.skip(cursor as int);
    while t < n
        invariant
            cursor <= t <= n,
            n == lines@.len(),
            rows == rows_view(lines@),
            tail == rows.skip(cursor as int),
            changes == tail.take(t - cursor).filter(keeps_changes()).len(),
            changes <= t - cursor,
        decreases n - t,
    {
        proof {
            crate::seqs::lemma_filter_step(tail, keeps_changes(), t - cursor);
        }
        if lines[t].changed() {
            changes += 1;
        }
        t += 1;
    }
    assert(tail.take(n - cursor) =~= tail);
    Rendered { blocks: out, dropped, dropped_changes: changes }
}

proof fn lemma_layout_stays_stopped(gs: Seq<Gap>, rows: Seq<LineView>, m: Map<usize, usize>, k: int)
    requires
        0 <= k <= gs.len(),
        layout_gaps(gs.take(k), rows, m).stopped,
    ensures
        layout_gaps(gs, rows, m) == layout_gaps(gs.take(k), rows, m),
    decreases gs.len() - k,
{
    if k < gs.len() {
        assert(gs.take(k + 1).drop_last() =~= gs.take(k));
        lemma_layout_stays_stopped(gs, rows, m, k + 1);
    } else {
        assert(gs.take(k) =~= gs);
    }
}

} // verus!
