//! Every path a comment names still resolves.
//!
//! The tree argues for itself in prose, and the prose cites repo-relative
//! paths. This module reads the comment text of a set of files, closes up a
//! citation that wrapped across two comment lines, and picks out every path
//! that starts at one of the tree's roots. Whether a path resolves is a
//! question for the file system, and is answered by whoever holds the files;
//! what counts as a citation, and which of them are broken once that answer
//! is in, is decided here.

use vstd::prelude::*;

use crate::text::{
    ascii_lower, chars_of, holds_at, is_ascii_alnum, lines,
    slice_chars, split_lines, starts_at, string_from, to_ascii_lower, trim_chars,
    trim_end_chars, trim_end_ws, trim_ws,
};

verus! {

/// One path named in one comment.
#[derive(Debug, PartialEq, Eq)]
pub struct Citation {
    /// Repo-relative, with `/` separators on every host.
    pub file: String,
    /// The line in the file as written: the first line when the citation
    /// wrapped, so the message names the line to open.
    pub line: usize,
    /// The cited path, repo-relative.
    pub path: String,
}

pub struct CitationView {
    pub file: Seq<char>,
    pub line: int,
    pub path: Seq<char>,
}

impl View for Citation {
    type V = CitationView;

    open spec fn view(&self) -> CitationView {
        CitationView { file: self.file@, line: self.line as int, path: self.path@ }
    }
}

/// Numbered lines of text, read as characters.
pub open spec fn numbered_view(v: Seq<(usize, String)>) -> Seq<(int, Seq<char>)> {
    v.map_values(|p: (usize, String)| (p.0 as int, p.1@))
}

pub open spec fn strings_view(v: Seq<String>) -> Seq<Seq<char>> {
    v.map_values(|s: String| s@)
}

pub open spec fn citations_view(v: Seq<Citation>) -> Seq<CitationView> {
    v.map_values(|c: Citation| c@)
}

// ---- comment text -------------------------------------------------------

/// The comment text of `cs` from `i` on, when a block comment is or is not
/// open there, and whether one is still open at the end of the line.
pub open spec fn scan_line(cs: Seq<char>, i: nat, in_block: bool, slashes: bool) -> (
    Seq<char>,
    bool,
)
    decreases cs.len() - i,
{
    if i >= cs.len() {
        (Seq::empty(), in_block)
    } else if in_block {
        if cs[i as int] == '*' && i + 1 < cs.len() && cs[(i + 1) as int] == '/' {
            scan_line(cs, i + 2, false, slashes)
        } else {
            let (t, b) = scan_line(cs, i + 1, true, slashes);
            (seq![cs[i as int]] + t, b)
        }
    } else if cs[i as int] == '/' && i + 1 < cs.len() && cs[(i + 1) as int] == '*' {
        scan_line(cs, i + 2, true, slashes)
    } else if slashes && cs[i as int] == '/' && i + 1 < cs.len() && cs[(i + 1) as int] == '/' {
        (cs.skip((i + 2) as int), false)
    } else {
        scan_line(cs, i + 1, false, slashes)
    }
}

/// The comment text of lines `k..` of a file, numbered from one, one entry
/// per line that carries any.
pub open spec fn comments_from(ls: Seq<Seq<char>>, k: nat, in_block: bool, slashes: bool) -> Seq<
    (int, Seq<char>),
>
    decreases ls.len() - k,
{
    if k >= ls.len() {
        Seq::empty()
    } else {
        let (t, b) = scan_line(ls[k as int], 0, in_block, slashes);
        let rest = comments_from(ls, k + 1, b, slashes);
        if t.len() > 0 {
            seq![((k + 1) as int, t)] + rest
        } else {
            rest
        }
    }
}

/// The comment text in `source`, as (1-based line, text). `slashes` is
/// whether `//` opens a comment.
pub open spec fn comment_lines_spec(source: Seq<char>, slashes: bool) -> Seq<(int, Seq<char>)> {
    comments_from(lines(source), 0, false, slashes)
}

/// One line's comment text, given whether a block comment is open as it
/// starts; and whether one is open as it ends.
fn scan_comment_line(line: &Vec<char>, in_block: bool, slashes: bool) -> (r: (Vec<char>, bool))
    ensures
        (r.0@, r.1) == scan_line(line@, 0, in_block, slashes),
{
    let ghost whole = scan_line(line@, 0, in_block, slashes);
    let n = line.len();
    let mut text: Vec<char> = Vec::new();
    let mut open = in_block;
    let mut i: usize = 0;
    while i < n
        invariant
            n == line@.len(),
            i <= n,
            text@ + scan_line(line@, i as nat, open, slashes).0 == whole.0,
            scan_line(line@, i as nat, open, slashes).1 == whole.1,
        decreases n - i,
    {
        if open {
            if line[i] == '*' && i + 1 < n && line[i + 1] == '/' {
                open = false;
                i += 2;
            } else {
                let ghost before = text@;
                text.push(line[i]);
                assert(text@ + scan_line(line@, (i + 1) as nat, true, slashes).0 =~= before
                    + scan_line(line@, i as nat, true, slashes).0);
                i += 1;
            }
        } else if line[i] == '/' && i + 1 < n && line[i + 1] == '*' {
            open = true;
            i += 2;
        } else if slashes && line[i] == '/' && i + 1 < n && line[i + 1] == '/' {
            let ghost before = text@;
            let mut j: usize = i + 2;
            while j < n
                invariant
                    n == line@.len(),
                    i + 2 <= j <= n,
                    text@ == before + line@.subrange(i + 2, j as int),
                decreases n - j,
            {
                text.push(line[j]);
                assert(text@ =~= before + line@.subrange(i + 2, j + 1));
                j += 1;
            }
            assert(line@.subrange(i + 2, n as int) =~= line@.skip(i + 2));
            assert(text@ + Seq::<char>::empty() =~= text@);
            i = n;
        } else {
            i += 1;
        }
    }
    assert(text@ + Seq::<char>::empty() =~= text@);
    (text, open)
}

/// The comment text in `source`, as (1-based line, text), one entry per line
/// that carries any.
///
/// `slashes` is whether `//` starts a comment, which is true of Rust and
/// JavaScript and false of CSS. Block comments are tracked across lines, so a
/// `/* ... */` spanning forty lines yields forty entries and each keeps its
/// own number. A string literal holding `/*` opens a comment that is not
/// there; that can only make the scan read more text, never hide a path.
pub fn comment_lines(source: &str, slashes: bool) -> (out: Vec<(usize, String)>)
    ensures
        numbered_view(out@) == comment_lines_spec(source@, slashes),
{
    let ls = split_lines(&chars_of(source));
    let ghost l = lines(source@);
    let mut out: Vec<(usize, String)> = Vec::new();
    let mut in_block = false;
    let mut k: usize = 0;
    assert(numbered_view(out@) =~= Seq::<(int, Seq<char>)>::empty());
    while k < ls.len()
        invariant
            ls@.len() == l.len(),
            forall|q: int| 0 <= q < ls@.len() ==> #[trigger] ls@[q]@ == l[q],
            k <= ls@.len(),
            numbered_view(out@) + comments_from(l, k as nat, in_block, slashes) == comments_from(
                l,
                0,
                false,
                slashes,
            ),
        decreases ls.len() - k,
    {
        let ghost before = numbered_view(out@);
        let ghost was = in_block;
        let (text, open) = scan_comment_line(&ls[k], in_block, slashes);
        in_block = open;
        assert(comments_from(l, k as nat, was, slashes) == if text@.len() > 0 {
            seq![((k + 1) as int, text@)] + comments_from(l, (k + 1) as nat, open, slashes)
        } else {
            comments_from(l, (k + 1) as nat, open, slashes)
        });
        if text.len() > 0 {
            let s = string_from(&text);
            out.push((k + 1, s));
            assert(numbered_view(out@) =~= before.push(((k + 1) as int, text@)));
            assert(before.push(((k + 1) as int, text@)) + comments_from(
                l,
                (k + 1) as nat,
                open,
                slashes,
            ) =~= before + (seq![((k + 1) as int, text@)] + comments_from(
                l,
                (k + 1) as nat,
                open,
                slashes,
            )));
        }
        k += 1;
    }
    out
}

// ---- wrapped citations --------------------------------------------------

/// `s` without the `/`, `!` and `*` it starts with.
pub open spec fn trim_marks(s: Seq<char>) -> Seq<char>
    decreases s.len(),
{
    if s.len() > 0 && (s[0] == '/' || s[0] == '!' || s[0] == '*') {
        trim_marks(s.drop_first())
    } else {
        s
    }
}

/// Whether a comment line, read without its trailing whitespace, ends in `-`.
pub open spec fn ends_in_dash(text: Seq<char>) -> bool {
    trim_end_ws(text).len() > 0 && trim_end_ws(text).last() == '-'
}

/// A line ending in `-` with the next comment line closed up onto it, the
/// next one's own comment marks dropped first.
pub open spec fn glued(text: Seq<char>, next: Seq<char>) -> Seq<char> {
    trim_end_ws(text) + trim_ws(trim_marks(trim_ws(next)))
}

/// The joined lines so far, and the one still open to a continuation.
pub struct WrapState {
    pub out: Seq<(int, Seq<char>)>,
    pub pending: Option<(int, Seq<char>)>,
}

pub open spec fn wrap_state(ls: Seq<(int, Seq<char>)>) -> WrapState
    decreases ls.len(),
{
    if ls.len() == 0 {
        WrapState { out: Seq::empty(), pending: None }
    } else {
        let st = wrap_state(ls.drop_last());
        let line = ls.last();
        match st.pending {
            None => WrapState { out: st.out, pending: Some(line) },
            Some(p) => if ends_in_dash(p.1) {
                WrapState { out: st.out, pending: Some((p.0, glued(p.1, line.1))) }
            } else {
                WrapState { out: st.out.push(p), pending: Some(line) }
            },
        }
    }
}

/// Every comment line ending in `-` joined to the one after it, numbered by
/// the first of them.
pub open spec fn close_up_spec(ls: Seq<(int, Seq<char>)>) -> Seq<(int, Seq<char>)> {
    let st = wrap_state(ls);
    match st.pending {
        Some(p) => st.out.push(p),
        None => st.out,
    }
}

fn trim_marks_chars(v: &Vec<char>) -> (out: Vec<char>)
    ensures
        out@ == trim_marks(v@),
{
    let mut i: usize = 0;
    assert(v@.skip(0) =~= v@);
    while i < v.len() && (v[i] == '/' || v[i] == '!' || v[i] == '*')
        invariant
            i <= v@.len(),
            trim_marks(v@.skip(i as int)) == trim_marks(v@),
        decreases v.len() - i,
    {
        assert(v@.skip(i as int).drop_first() =~= v@.skip(i + 1));
        i += 1;
    }
    assert(v@.subrange(i as int, v@.len() as int) =~= v@.skip(i as int));
    slice_chars(v, i, v.len())
}

fn join_chars(a: &Vec<char>, b: &Vec<char>) -> (out: Vec<char>)
    ensures
        out@ == a@ + b@,
{
    let mut out = slice_chars(a, 0, a.len());
    assert(a@.subrange(0, a@.len() as int) =~= a@);
    let mut k: usize = 0;
    while k < b.len()
        invariant
            k <= b@.len(),
            out@ == a@ + b@.take(k as int),
        decreases b.len() - k,
    {
        out.push(b[k]);
        assert(out@ =~= a@ + b@.take(k + 1));
        k += 1;
    }
    assert(b@.take(b@.len() as int) =~= b@);
    out
}

/// Join every comment line that ends in `-` to the one after it.
///
/// The leading `/`, `!` and `*` of the continuation are dropped first: a
/// `///` line arrives here as `/ durability.md`, and gluing that on would
/// make a path of `docs/permission-/ durability.md`.
pub fn close_up_wraps(lines: &Vec<(usize, String)>) -> (out: Vec<(usize, String)>)
    ensures
        numbered_view(out@) == close_up_spec(numbered_view(lines@)),
{
    let ghost ls = numbered_view(lines@);
    let mut out: Vec<(usize, String)> = Vec::new();
    let mut holding = false;
    let mut at: usize = 0;
    let mut text: Vec<char> = Vec::new();
    let mut k: usize = 0;
    assert(ls.take(0) =~= Seq::<(int, Seq<char>)>::empty());
    assert(numbered_view(out@) =~= Seq::<(int, Seq<char>)>::empty());
    while k < lines.len()
        invariant
            ls == numbered_view(lines@),
            k <= lines@.len(),
            wrap_state(ls.take(k as int)) == (WrapState {
                out: numbered_view(out@),
                pending: if holding {
                    Some((at as int, text@))
                } else {
                    None
                },
            }),
        decreases lines.len() - k,
    {
        assert(ls.take(k + 1).drop_last() =~= ls.take(k as int));
        let ghost before = numbered_view(out@);
        let line_at = lines[k].0;
        let line_text = chars_of(lines[k].1.as_str());
        assert(ls.take(k + 1).last() == (line_at as int, line_text@));
        if !holding {
            holding = true;
            at = line_at;
            text = line_text;
        } else {
            let te = trim_end_chars(&text);
            if te.len() > 0 && te[te.len() - 1] == '-' {
                let next = trim_chars(&trim_marks_chars(&trim_chars(&line_text)));
                text = join_chars(&te, &next);
            } else {
                let done = string_from(&text);
                out.push((at, done));
                assert(numbered_view(out@) =~= before.push((at as int, text@)));
                at = line_at;
                text = line_text;
            }
        }
        k += 1;
    }
    assert(ls.take(lines@.len() as int) =~= ls);
    if holding {
        let ghost before = numbered_view(out@);
        let done = string_from(&text);
        out.push((at, done));
        assert(numbered_view(out@) =~= before.push((at as int, text@)));
    }
    out
}

// ---- citations in a line ------------------------------------------------

/// What a citation starts with: `src/`, `assets/`, `docs/`, `scripts/`,
/// `crates/`. Anything else in a comment is prose.
pub open spec fn roots() -> Seq<Seq<char>> {
    seq![
        seq!['s', 'r', 'c', '/'],
        seq!['a', 's', 's', 'e', 't', 's', '/'],
        seq!['d', 'o', 'c', 's', '/'],
        seq!['s', 'c', 'r', 'i', 'p', 't', 's', '/'],
        seq!['c', 'r', 'a', 't', 'e', 's', '/'],
    ]
}

/// The length of the first root that `cs` holds at `i`, from root `r` on.
pub open spec fn root_from(cs: Seq<char>, i: int, r: nat) -> Option<nat>
    decreases roots().len() - r,
{
    if r >= roots().len() {
        None
    } else if holds_at(cs, i, roots()[r as int]) {
        Some(roots()[r as int].len())
    } else {
        root_from(cs, i, r + 1)
    }
}

pub open spec fn root_at(cs: Seq<char>, i: int) -> Option<nat> {
    root_from(cs, i, 0)
}

/// A character a path is made of.
pub open spec fn path_char(c: char) -> bool {
    is_ascii_alnum(c) || c == '_' || c == '.' || c == '/' || c == '-'
}

/// A character that makes a root the tail of a longer word or path, given
/// whether it is alphanumeric.
pub open spec fn word_char(c: char, alnum: bool) -> bool {
    alnum || c == '_' || c == '.' || c == '/' || c == '-'
}

/// Where the run of path characters starting at `e` ends.
pub open spec fn path_end(cs: Seq<char>, e: nat) -> nat
    decreases cs.len() - e,
{
    if e < cs.len() && path_char(cs[e as int]) {
        path_end(cs, e + 1)
    } else {
        e
    }
}

/// `s` without the `.`, `/` and `-` a sentence put after it.
pub open spec fn trim_path(s: Seq<char>) -> Seq<char>
    decreases s.len(),
{
    if s.len() > 0 && (s.last() == '.' || s.last() == '/' || s.last() == '-') {
        trim_path(s.drop_last())
    } else {
        s
    }
}

pub proof fn lemma_path_end_bound(cs: Seq<char>, e: nat)
    requires
        e <= cs.len(),
    ensures
        e <= path_end(cs, e) <= cs.len(),
        forall|q: int| e <= q < path_end(cs, e) ==> path_char(#[trigger] cs[q]),
    decreases cs.len() - e,
{
    if e < cs.len() && path_char(cs[e as int]) {
        lemma_path_end_bound(cs, e + 1);
    }
}

/// The paths cited in `cs` from `i` on, where `alnum[k]` says whether
/// `cs[k]` is alphanumeric.
pub open spec fn cited_from(cs: Seq<char>, alnum: Seq<bool>, i: nat) -> Seq<Seq<char>>
    decreases cs.len() - i,
{
    if i >= cs.len() {
        Seq::empty()
    } else {
        match root_at(cs, i as int) {
            None => cited_from(cs, alnum, i + 1),
            Some(rl) => if i > 0 && word_char(cs[i - 1], alnum[i - 1]) {
                cited_from(cs, alnum, i + 1)
            } else {
                proof {
                    lemma_path_end_bound(cs, i);
                }
                let e = path_end(cs, i);
                let p = trim_path(cs.subrange(i as int, e as int));
                let next = if e > i + 1 {
                    e
                } else {
                    i + 1
                };
                (if p.len() >= rl {
                    seq![p]
                } else {
                    Seq::empty()
                }) + cited_from(cs, alnum, next)
            },
        }
    }
}

/// `char::is_alphanumeric`, which reads Unicode's `Alphabetic` and
/// `Numeric` properties.
pub uninterp spec fn alphanumeric(c: char) -> bool;

/// Whether `c` is alphanumeric, as `char::is_alphanumeric` says: the
/// Unicode tables it consults are not restated here, so the result is known
/// only by name.
#[verifier::external_body]
fn is_alphanumeric(c: char) -> (r: bool)
    ensures
        r == alphanumeric(c),
{
    c.is_alphanumeric()
}

/// `alphanumeric` of every character of `s`.
pub open spec fn alnum_of(s: Seq<char>) -> Seq<bool> {
    Seq::new(s.len(), |i: int| alphanumeric(s[i]))
}

/// The cited paths of one line of comment text.
pub open spec fn cited_spec(text: Seq<char>) -> Seq<Seq<char>> {
    cited_from(text, alnum_of(text), 0)
}

fn root_len_at(cs: &Vec<char>, i: usize) -> (r: Option<usize>)
    ensures
        match r {
            Some(n) => root_at(cs@, i as int) == Some(n as nat),
            None => root_at(cs@, i as int) is None,
        },
{
    let src = chars_of("src/");
    let assets = chars_of("assets/");
    let docs = chars_of("docs/");
    let scripts = chars_of("scripts/");
    let crates = chars_of("crates/");
    proof {
        reveal_strlit("src/");
        reveal_strlit("assets/");
        reveal_strlit("docs/");
        reveal_strlit("scripts/");
        reveal_strlit("crates/");
        assert(src@ =~= roots()[0]);
        assert(assets@ =~= roots()[1]);
        assert(docs@ =~= roots()[2]);
        assert(scripts@ =~= roots()[3]);
        assert(crates@ =~= roots()[4]);
        reveal_with_fuel(root_from, 6);
    }
    if starts_at(cs, i, &src) {
        Some(src.len())
    } else if starts_at(cs, i, &assets) {
        Some(assets.len())
    } else if starts_at(cs, i, &docs) {
        Some(docs.len())
    } else if starts_at(cs, i, &scripts) {
        Some(scripts.len())
    } else if starts_at(cs, i, &crates) {
        Some(crates.len())
    } else {
        None
    }
}

fn is_path_char(c: char) -> (b: bool)
    ensures
        b == path_char(c),
{
    ('a' <= c && c <= 'z') || ('A' <= c && c <= 'Z') || ('0' <= c && c <= '9') || c == '_' || c
        == '.' || c == '/' || c == '-'
}

/// Every repo-relative path named in `text`, where `alnum[k]` says whether
/// `text[k]` is alphanumeric.
///
/// A citation runs from one of the roots through the path characters after
/// it, then loses whatever trailing punctuation the sentence added: a `.`
/// ending the sentence, the `:` before a line number, the `/` of a
/// directory written with one. A root that is the tail of a longer word or
/// path is not a citation. Path characters are ASCII, so a path's length in
/// characters is its length in bytes.
pub fn cited_paths_given(text: &Vec<char>, alnum: &Vec<bool>) -> (out: Vec<String>)
    requires
        alnum@.len() == text@.len(),
    ensures
        strings_view(out@) == cited_from(text@, alnum@, 0),
{
    let n = text.len();
    let mut out: Vec<String> = Vec::new();
    let mut i: usize = 0;
    assert(strings_view(out@) =~= Seq::<Seq<char>>::empty());
    while i < n
        invariant
            n == text@.len(),
            alnum@.len() == n,
            i <= n,
            strings_view(out@) + cited_from(text@, alnum@, i as nat) == cited_from(
                text@,
                alnum@,
                0,
            ),
        decreases n - i,
    {
        let ghost before = strings_view(out@);
        match root_len_at(text, i) {
            None => {
                i += 1;
            },
            Some(rl) => {
                if i > 0 && (alnum[i - 1] || text[i - 1] == '_' || text[i - 1] == '.' || text[i
                    - 1] == '/' || text[i - 1] == '-') {
                    i += 1;
                } else {
                    proof {
                        lemma_path_end_bound(text@, i as nat);
                    }
                    let mut end = i;
                    while end < n && is_path_char(text[end])
                        invariant
                            n == text@.len(),
                            i <= end <= n,
                            path_end(text@, end as nat) == path_end(text@, i as nat),
                        decreases n - end,
                    {
                        end += 1;
                    }
                    let mut stop = end;
                    while stop > i && (text[stop - 1] == '.' || text[stop - 1] == '/' || text[stop
                        - 1] == '-')
                        invariant
                            i <= stop <= end <= n,
                            n == text@.len(),
                            trim_path(text@.subrange(i as int, stop as int)) == trim_path(
                                text@.subrange(i as int, end as int),
                            ),
                        decreases stop,
                    {
                        assert(text@.subrange(i as int, stop as int).drop_last() =~= text@.subrange(
                            i as int,
                            stop - 1,
                        ));
                        stop -= 1;
                    }
                    let next: usize = if end > i + 1 {
                        end
                    } else {
                        i + 1
                    };
                    let ghost p = text@.subrange(i as int, stop as int);
                    assert(trim_path(p) == p);
                    if stop - i >= rl {
                        let path = string_from(&slice_chars(text, i, stop));
                        out.push(path);
                        assert(strings_view(out@) =~= before.push(p));
                        assert(before.push(p) + cited_from(
                            text@,
                            alnum@,
                            next as nat,
                        ) =~= before + (seq![p] + cited_from(
                            text@,
                            alnum@,
                            next as nat,
                        )));
                    } else {
                        assert(Seq::<Seq<char>>::empty() + cited_from(
                            text@,
                            alnum@,
                            next as nat,
                        ) =~= cited_from(
                            text@,
                            alnum@,
                            next as nat,
                        ));
                    }
                    i = next;
                }
            },
        }
    }
    assert(strings_view(out@) + Seq::<Seq<char>>::empty() =~= strings_view(out@));
    out
}

/// Every repo-relative path named in one line of comment text.
pub fn cited_paths(text: &str) -> (out: Vec<String>)
    ensures
        strings_view(out@) == cited_spec(text@),
{
    let chars = chars_of(text);
    let mut alnum: Vec<bool> = Vec::new();
    let mut k: usize = 0;
    while k < chars.len()
        invariant
            chars@ == text@,
            k <= chars@.len(),
            alnum@ == alnum_of(text@).take(k as int),
        decreases chars.len() - k,
    {
        let a = is_alphanumeric(chars[k]);
        alnum.push(a);
        assert(alnum@ =~= alnum_of(text@).take(k + 1));
        k += 1;
    }
    assert(alnum_of(text@).take(chars@.len() as int) =~= alnum_of(text@));
    cited_paths_given(&chars, &alnum)
}

// ---- the files ----------------------------------------------------------

/// `Path::extension` of a file name: what follows the last `.` of its last
/// component, if the component has one that does not open it.
pub uninterp spec fn path_extension(file: Seq<char>) -> Option<Seq<char>>;

/// The extension `std::path::Path::extension` finds in `file`. Its result
/// is known only by name; a `&str` path's extension is valid UTF-8, so the
/// lossy conversion loses nothing.
#[verifier::external_body]
fn extension_of(file: &str) -> (r: Option<String>)
    ensures
        match r {
            Some(e) => path_extension(file@) == Some(e@),
            None => path_extension(file@) == None::<Seq<char>>,
        },
{
    match std::path::Path::new(file).extension() {
        Some(e) => Some(e.to_string_lossy().into_owned()),
        None => None,
    }
}

/// Whether an extension is `css`, in any ASCII case.
pub open spec fn is_css(ext: Option<Seq<char>>) -> bool {
    match ext {
        Some(e) => e.len() == 3 && ascii_lower(e[0]) == 'c' && ascii_lower(e[1]) == 's'
            && ascii_lower(e[2]) == 's',
        None => false,
    }
}

pub open spec fn opt_view(ext: Option<String>) -> Option<Seq<char>> {
    match ext {
        Some(e) => Some(e@),
        None => None,
    }
}

/// The comment text of a source whose file has extension `ext`, whole
/// citations closed up: `//` opens a comment in everything but CSS.
pub open spec fn comments_with(ext: Option<Seq<char>>, source: Seq<char>) -> Seq<
    (int, Seq<char>),
> {
    close_up_spec(comment_lines_spec(source, !is_css(ext)))
}

/// The comment text of one file, whole citations closed up.
pub open spec fn comments_of_spec(file: Seq<char>, source: Seq<char>) -> Seq<(int, Seq<char>)> {
    comments_with(path_extension(file), source)
}

/// The comment text of a source whose file has extension `ext`, whole
/// citations closed up, keyed on the syntax the extension implies.
pub fn comments_by_extension(ext: &Option<String>, source: &str) -> (out: Vec<(usize, String)>)
    ensures
        numbered_view(out@) == comments_with(opt_view(*ext), source@),
{
    let css = match ext {
        Some(e) => {
            let cs = chars_of(e.as_str());
            cs.len() == 3 && to_ascii_lower(cs[0]) == 'c' && to_ascii_lower(cs[1]) == 's'
                && to_ascii_lower(cs[2]) == 's'
        },
        None => false,
    };
    close_up_wraps(&comment_lines(source, !css))
}

/// The comment text of one file, whole citations closed up, keyed on the
/// syntax its extension implies. Asked of the extension rather than of the
/// name's last four characters, so `.CSS` is CSS too.
pub fn comments_of(file: &str, source: &str) -> (out: Vec<(usize, String)>)
    ensures
        numbered_view(out@) == comments_of_spec(file@, source@),
{
    let ext = extension_of(file);
    comments_by_extension(&ext, source)
}

pub open spec fn files_view(v: Seq<(String, String)>) -> Seq<(Seq<char>, Seq<char>)> {
    v.map_values(|p: (String, String)| (p.0@, p.1@))
}

/// The paths of one comment line as citations in `file`.
pub open spec fn line_citations(file: Seq<char>, line: (int, Seq<char>)) -> Seq<CitationView> {
    cited_spec(line.1).map_values(|p: Seq<char>| CitationView { file, line: line.0, path: p })
}

pub open spec fn comment_citations(file: Seq<char>, cs: Seq<(int, Seq<char>)>) -> Seq<
    CitationView,
>
    decreases cs.len(),
{
    if cs.len() == 0 {
        Seq::empty()
    } else {
        comment_citations(file, cs.drop_last()) + line_citations(file, cs.last())
    }
}

/// Every citation in the comments of one file, resolving or not.
pub open spec fn file_citations(file: Seq<char>, source: Seq<char>) -> Seq<CitationView> {
    comment_citations(file, comments_of_spec(file, source))
}

/// Every citation in the comments of `files`, in file order, resolving or
/// not.
pub open spec fn all_citations_spec(files: Seq<(Seq<char>, Seq<char>)>) -> Seq<CitationView>
    decreases files.len(),
{
    if files.len() == 0 {
        Seq::empty()
    } else {
        all_citations_spec(files.drop_last()) + file_citations(files.last().0, files.last().1)
    }
}

/// Every citation in the comments of `files`, as (file, line, path), in file
/// order and line order.
pub fn all_citations(files: &Vec<(String, String)>) -> (out: Vec<Citation>)
    ensures
        citations_view(out@) == all_citations_spec(files_view(files@)),
{
    let ghost fv = files_view(files@);
    let mut out: Vec<Citation> = Vec::new();
    let mut f: usize = 0;
    assert(fv.take(0) =~= Seq::<(Seq<char>, Seq<char>)>::empty());
    assert(citations_view(out@) =~= Seq::<CitationView>::empty());
    while f < files.len()
        invariant
            fv == files_view(files@),
            f <= files@.len(),
            citations_view(out@) == all_citations_spec(fv.take(f as int)),
        decreases files.len() - f,
    {
        assert(fv.take(f + 1).drop_last() =~= fv.take(f as int));
        let file = &files[f].0;
        let comments = comments_of(file.as_str(), files[f].1.as_str());
        let ghost cms = numbered_view(comments@);
        let ghost base = all_citations_spec(fv.take(f as int));
        let mut c: usize = 0;
        assert(cms.take(0) =~= Seq::<(int, Seq<char>)>::empty());
        assert(base + comment_citations(file@, cms.take(0)) =~= base);
        while c < comments.len()
            invariant
                fv == files_view(files@),
                f < files@.len(),
                file@ == fv[f as int].0,
                cms == numbered_view(comments@),
                c <= comments@.len(),
                citations_view(out@) == base + comment_citations(file@, cms.take(c as int)),
            decreases comments.len() - c,
        {
            assert(cms.take(c + 1).drop_last() =~= cms.take(c as int));
            let line = comments[c].0;
            let paths = cited_paths(comments[c].1.as_str());
            let ghost mid = base + comment_citations(file@, cms.take(c as int));
            let ghost lc = line_citations(file@, cms[c as int]);
            let mut p: usize = 0;
            assert(mid + lc.take(0) =~= mid);
            while p < paths.len()
                invariant
                    file@ == fv[f as int].0,
                    cms == numbered_view(comments@),
                    c < comments@.len(),
                    line == comments@[c as int].0,
                    strings_view(paths@) == cited_spec(cms[c as int].1),
                    lc == line_citations(file@, cms[c as int]),
                    p <= paths@.len(),
                    citations_view(out@) == mid + lc.take(p as int),
                decreases paths.len() - p,
            {
                let ghost before = citations_view(out@);
                let found = Citation { file: file.clone(), line, path: paths[p].clone() };
                out.push(found);
                assert(citations_view(out@) =~= before.push(found@));
                assert(lc.take(p + 1) =~= lc.take(p as int).push(found@));
                assert(mid + lc.take(p + 1) =~= (mid + lc.take(p as int)).push(found@));
                p += 1;
            }
            assert(lc.take(paths@.len() as int) =~= lc);
            assert(cms.take(c + 1).last() == cms[c as int]);
            assert(base + comment_citations(file@, cms.take(c + 1)) =~= mid + lc);
            c += 1;
        }
        assert(cms.take(comments@.len() as int) =~= cms);
        assert(fv.take(f + 1).last() == fv[f as int]);
        f += 1;
    }
    assert(fv.take(files@.len() as int) =~= fv);
    out
}

/// Every citation in `files` that does not resolve, where `resolves[k]`
/// says whether the `k`th of [`all_citations`] names a path that exists.
pub fn broken_citations(files: &Vec<(String, String)>, resolves: &Vec<bool>) -> (out: Vec<Citation>)
    requires
        resolves@.len() == all_citations_spec(files_view(files@)).len(),
    ensures
        citations_view(out@) == broken_spec(all_citations_spec(files_view(files@)), resolves@),
{
    let all = all_citations(files);
    let ghost cs = all_citations_spec(files_view(files@));
    let mut out: Vec<Citation> = Vec::new();
    let mut k: usize = 0;
    assert(citations_view(out@) =~= broken_spec(cs.take(0), resolves@.take(0)));
    while k < all.len()
        invariant
            citations_view(all@) == cs,
            resolves@.len() == cs.len(),
            k <= cs.len(),
            citations_view(out@) == broken_spec(cs.take(k as int), resolves@.take(k as int)),
        decreases all.len() - k,
    {
        assert(cs.take(k + 1).drop_last() =~= cs.take(k as int));
        assert(resolves@.take(k + 1).drop_last() =~= resolves@.take(k as int));
        if !resolves[k] {
            let ghost before = citations_view(out@);
            let c = &all[k];
            let copy = Citation { file: c.file.clone(), line: c.line, path: c.path.clone() };
            out.push(copy);
            assert(citations_view(out@) =~= before.push(cs[k as int]));
        }
        k += 1;
    }
    assert(cs.take(cs.len() as int) =~= cs);
    assert(resolves@.take(cs.len() as int) =~= resolves@);
    out
}

/// The citations of `cs` whose flag in `resolves` is down, in order.
pub open spec fn broken_spec(cs: Seq<CitationView>, resolves: Seq<bool>) -> Seq<CitationView>
    decreases cs.len(),
{
    if cs.len() == 0 || resolves.len() != cs.len() {
        Seq::empty()
    } else if resolves.last() {
        broken_spec(cs.drop_last(), resolves.drop_last())
    } else {
        broken_spec(cs.drop_last(), resolves.drop_last()).push(cs.last())
    }
}

/// How many citations the scan finds in `files` in total, resolving or not.
pub fn citation_count(files: &Vec<(String, String)>) -> (n: usize)
    ensures
        n == all_citations_spec(files_view(files@)).len(),
{
    all_citations(files).len()
}

/// Whether one ledger entry is about one broken citation.
pub fn covers(found: &Citation, file: &str, path: &str) -> (b: bool)
    ensures
        b == (found.file@ == file@ && found.path@ == path@),
{
    found.file.as_str().to_owned() == file.to_owned() && found.path.as_str().to_owned()
        == path.to_owned()
}

// ---- laws ---------------------------------------------------------------

/// What a citation looks like: it starts with one of the roots, it is made
/// of path characters, and it does not end in the `.`, `/` or `-` a
/// sentence puts after a path.
pub open spec fn clean_citation(p: Seq<char>) -> bool {
    &&& exists|r: int| 0 <= r < roots().len() && #[trigger] holds_at(p, 0, roots()[r])
    &&& forall|q: int| 0 <= q < p.len() ==> path_char(#[trigger] p[q])
    &&& p.len() > 0
    &&& !(p.last() == '.' || p.last() == '/' || p.last() == '-')
}

proof fn lemma_trim_path_prefix(s: Seq<char>)
    ensures
        trim_path(s) =~= s.take(trim_path(s).len() as int),
        trim_path(s).len() <= s.len(),
        trim_path(s).len() > 0 ==> !(trim_path(s).last() == '.' || trim_path(s).last() == '/'
            || trim_path(s).last() == '-'),
    decreases s.len(),
{
    if s.len() > 0 && (s.last() == '.' || s.last() == '/' || s.last() == '-') {
        lemma_trim_path_prefix(s.drop_last());
        assert(s.drop_last().take(trim_path(s).len() as int) =~= s.take(trim_path(s).len() as int));
    } else {
        assert(s.take(s.len() as int) =~= s);
    }
}

proof fn lemma_root_from(cs: Seq<char>, i: int, r: nat)
    ensures
        root_from(cs, i, r) matches Some(n) ==> exists|k: int|
            r <= k < roots().len() && #[trigger] holds_at(cs, i, roots()[k]) && roots()[k].len()
                == n,
    decreases roots().len() - r,
{
    if r < roots().len() && !holds_at(cs, i, roots()[r as int]) {
        lemma_root_from(cs, i, r + 1);
    }
}

proof fn lemma_cited_clean(cs: Seq<char>, alnum: Seq<bool>, i: nat)
    ensures
        forall|k: int|
            0 <= k < cited_from(cs, alnum, i).len() ==> clean_citation(
                #[trigger] cited_from(cs, alnum, i)[k],
            ),
    decreases cs.len() - i,
{
    if i < cs.len() {
        match root_at(cs, i as int) {
            None => {
                lemma_cited_clean(cs, alnum, i + 1);
                assert(cited_from(cs, alnum, i) == cited_from(cs, alnum, i + 1));
            },
            Some(rl) => if i > 0 && word_char(cs[i - 1], alnum[i - 1]) {
                lemma_cited_clean(cs, alnum, i + 1);
                assert(cited_from(cs, alnum, i) == cited_from(cs, alnum, i + 1));
            } else {
                lemma_path_end_bound(cs, i);
                let e = path_end(cs, i);
                let raw = cs.subrange(i as int, e as int);
                let p = trim_path(raw);
                let next = if e > i + 1 {
                    e
                } else {
                    i + 1
                };
                lemma_cited_clean(cs, alnum, next);
                let rest = cited_from(cs, alnum, next);
                let here: Seq<Seq<char>> = if p.len() >= rl {
                    seq![p]
                } else {
                    Seq::empty()
                };
                assert(cited_from(cs, alnum, i) == here + rest);
                if p.len() >= rl {
                    lemma_trim_path_prefix(raw);
                    lemma_root_from(cs, i as int, 0);
                    let k = choose|k: int|
                        0 <= k < roots().len() && #[trigger] holds_at(cs, i as int, roots()[k])
                            && roots()[k].len() == rl;
                    assert(p.subrange(0, rl as int) =~= cs.subrange(i as int, (i + rl) as int));
                    assert(holds_at(p, 0, roots()[k]));
                    assert forall|q: int| 0 <= q < p.len() implies path_char(#[trigger] p[q]) by {
                        assert(p[q] == raw[q]);
                        assert(raw[q] == cs[i + q]);
                    }
                    assert(clean_citation(p));
                }
                assert forall|k: int| 0 <= k < (here + rest).len() implies clean_citation(
                    #[trigger] (here + rest)[k],
                ) by {
                    if k >= here.len() {
                        assert((here + rest)[k] == rest[k - here.len()]);
                    }
                }
            },
        }
    }
}

/// Every path the scan takes out of a line is a citation in shape: it
/// starts at one of the roots, holds only path characters, and has lost the
/// punctuation the sentence put after it — whatever the text around it.
pub proof fn law_cited_paths_are_clean(text: Seq<char>)
    ensures
        forall|k: int|
            0 <= k < cited_spec(text).len() ==> clean_citation(#[trigger] cited_spec(text)[k]),
{
    lemma_cited_clean(text, alnum_of(text), 0);
}

/// Whether `c` is one of the marks a comment line opens with.
pub open spec fn comment_mark(c: char) -> bool {
    c == '/' || c == '!' || c == '*'
}

proof fn lemma_trim_marks_skips(s: Seq<char>)
    ensures
        exists|k: int|
            0 <= k <= s.len() && trim_marks(s) == s.skip(k) && (forall|i: int|
                0 <= i < k ==> comment_mark(#[trigger] s[i])) && (k < s.len() ==> !comment_mark(s[k])),
    decreases s.len(),
{
    if s.len() > 0 && comment_mark(s[0]) {
        lemma_trim_marks_skips(s.drop_first());
        let k = choose|k: int|
            0 <= k <= s.drop_first().len() && trim_marks(s.drop_first()) == s.drop_first().skip(k)
                && (forall|i: int| 0 <= i < k ==> comment_mark(#[trigger] s.drop_first()[i])) && (k
                < s.drop_first().len() ==> !comment_mark(s.drop_first()[k]));
        assert(s.drop_first().skip(k) =~= s.skip(k + 1));
        assert forall|i: int| 0 <= i < k + 1 implies comment_mark(#[trigger] s[i]) by {
            if i > 0 {
                assert(s[i] == s.drop_first()[i - 1]);
            }
        }
        assert(k + 1 < s.len() ==> s[k + 1] == s.drop_first()[k]);
    } else {
        assert(s.skip(0) =~= s);
    }
}

/// Whether the first `k` characters of `s` are comment marks and the one
/// after them, if any, is not.
pub open spec fn marks_end_at(s: Seq<char>, k: int) -> bool {
    &&& 0 <= k <= s.len()
    &&& forall|i: int| 0 <= i < k ==> comment_mark(#[trigger] s[i])
    &&& k < s.len() ==> !comment_mark(s[k])
}

/// Closing up a wrapped citation glues on the continuation without its
/// comment marks: the first half, then the continuation line past every
/// `/`, `!` and `*` it opens with, so a path wrapped inside a block comment
/// reads back whole.
pub proof fn law_a_wrapped_citation_is_glued_without_its_marks(text: Seq<char>, next: Seq<char>)
    ensures
        exists|k: int|
            #[trigger] marks_end_at(trim_ws(next), k) && glued(text, next) == trim_end_ws(text) + trim_ws(
                trim_ws(next).skip(k),
            ),
{
    let s = trim_ws(next);
    lemma_trim_marks_skips(s);
    let k = choose|k: int|
        0 <= k <= s.len() && trim_marks(s) == s.skip(k) && (forall|i: int|
            0 <= i < k ==> comment_mark(#[trigger] s[i])) && (k < s.len() ==> !comment_mark(s[k]));
    assert(marks_end_at(s, k));
    assert(glued(text, next) == trim_end_ws(text) + trim_ws(s.skip(k)));
}

/// A comment line ending in `-` takes the next line onto it, under the
/// first line's number, glued as the law above says.
pub proof fn law_a_dash_ended_line_takes_the_next(n1: int, t1: Seq<char>, n2: int, t2: Seq<char>)
    requires
        ends_in_dash(t1),
    ensures
        close_up_spec(seq![(n1, t1), (n2, t2)]) == seq![(n1, glued(t1, t2))],
{
    let ls = seq![(n1, t1), (n2, t2)];
    let one = seq![(n1, t1)];
    let none = Seq::<(int, Seq<char>)>::empty();
    assert(ls.drop_last() =~= one);
    assert(one.drop_last() =~= none);
    assert(wrap_state(none).pending is None && wrap_state(none).out.len() == 0);
    assert(one.last() == (n1, t1));
    assert(wrap_state(one) == WrapState { out: wrap_state(none).out, pending: Some((n1, t1)) });
    assert(ls.last() == (n2, t2));
    let st = wrap_state(ls);
    assert(st == WrapState { out: wrap_state(none).out, pending: Some((n1, glued(t1, t2))) });
    assert(close_up_spec(ls) =~= seq![(n1, glued(t1, t2))]);
}

} // verus!
