//! What the desktop inherits, and what nobody decided.
//!
//! The shared sheet is emitted into both shells, so every rule in it lands
//! in a desktop window as surely as on a phone; the desktop sheets are where
//! a rule is meant to land differently. The question this module answers is
//! which classes the desktop renders, the shared sheet styles, and no desktop
//! rule has ever said anything about.
//!
//! A rule decides a class when its SUBJECT carries the class — the last
//! compound of the selector, the element the declarations land on. Context
//! does not count, `:not(…)` and `:has(…)` do not count (a guard is not a
//! subject), and `:is(…)`/`:where(…)` do, because those are the subject
//! written as an alternation. Attribute selectors are skipped whole, so a
//! `[data-x=".y"]` is not read as a class.

use vstd::prelude::*;

use crate::css::{uncommented, without_comments};
use crate::names::{ascending, entry_keys, entry_pairs, insert_entry, insert_name, name_set, names_view};
use crate::text::{
    blank, chars_of, is_ascii_alnum, is_ascii_alpha, is_blank, is_whitespace, is_ws,
    slice_chars, string_from, to_ascii_lower, trim_chars, trim_ws,
};

verus! {

pub open spec fn strings_of(v: Seq<String>) -> Seq<Seq<char>> {
    v.map_values(|s: String| s@)
}

/// Inside a quote opened by `q`, the quote after `c`.
pub open spec fn after_quoted(q: char, c: char) -> Option<char> {
    if c == q {
        None
    } else {
        Some(q)
    }
}

/// Outside any quote, the nesting depth after `c`.
pub open spec fn depth_after(depth: int, c: char) -> int {
    if c == '(' || c == '[' {
        depth + 1
    } else if c == ')' || c == ']' {
        depth - 1
    } else {
        depth
    }
}

pub open spec fn is_quote(c: char) -> bool {
    c == '"' || c == '\''
}

// ---- splitting a selector list ------------------------------------------

/// The parts of `s` from `i` on, split on every `sep` outside parens,
/// brackets and quotes, when the part read so far is `buf`.
pub open spec fn split_walk(
    s: Seq<char>,
    sep: char,
    i: int,
    buf: Seq<char>,
    depth: int,
    quote: Option<char>,
) -> Seq<Seq<char>>
    decreases s.len() - i,
{
    if i < 0 || i >= s.len() {
        seq![buf]
    } else {
        let c = s[i];
        match quote {
            Some(q) => split_walk(s, sep, i + 1, buf.push(c), depth, after_quoted(q, c)),
            None => if c == sep && depth == 0 {
                seq![buf] + split_walk(s, sep, i + 1, Seq::empty(), depth, None)
            } else if is_quote(c) {
                split_walk(s, sep, i + 1, buf.push(c), depth, Some(c))
            } else {
                split_walk(s, sep, i + 1, buf.push(c), depth_after(depth, c), None)
            },
        }
    }
}

/// `s` split on every `sep` outside parens, brackets and quotes, blank parts
/// dropped.
pub open spec fn split_top_spec(s: Seq<char>, sep: char) -> Seq<Seq<char>> {
    split_walk(s, sep, 0, Seq::empty(), 0, None).filter(|p: Seq<char>| !blank(p))
}

/// Every part `split_walk` produces is no longer than `buf` and the rest of
/// `s` together.
pub proof fn lemma_split_walk_short(
    s: Seq<char>,
    sep: char,
    i: int,
    buf: Seq<char>,
    depth: int,
    quote: Option<char>,
)
    requires
        0 <= i <= s.len(),
    ensures
        forall|k: int|
            0 <= k < split_walk(s, sep, i, buf, depth, quote).len() ==> (#[trigger] split_walk(
                s,
                sep,
                i,
                buf,
                depth,
                quote,
            )[k]).len() <= buf.len() + s.len() - i,
    decreases s.len() - i,
{
    if i < s.len() {
        let c = s[i];
        let here = split_walk(s, sep, i, buf, depth, quote);
        match quote {
            Some(q) => {
                lemma_split_walk_short(s, sep, i + 1, buf.push(c), depth, after_quoted(q, c));
                assert(here == split_walk(s, sep, i + 1, buf.push(c), depth, after_quoted(q, c)));
            },
            None => if c == sep && depth == 0 {
                lemma_split_walk_short(s, sep, i + 1, Seq::empty(), depth, None);
                let rest = split_walk(s, sep, i + 1, Seq::empty(), depth, None);
                assert(here == seq![buf] + rest);
                assert forall|k: int| 0 <= k < here.len() implies (#[trigger] here[k]).len()
                    <= buf.len() + s.len() - i by {
                    if k > 0 {
                        assert(here[k] == rest[k - 1]);
                    }
                }
            } else if is_quote(c) {
                lemma_split_walk_short(s, sep, i + 1, buf.push(c), depth, Some(c));
                assert(here == split_walk(s, sep, i + 1, buf.push(c), depth, Some(c)));
            } else {
                lemma_split_walk_short(s, sep, i + 1, buf.push(c), depth_after(depth, c), None);
                assert(here == split_walk(s, sep, i + 1, buf.push(c), depth_after(depth, c), None));
            },
        }
    } else {
        assert(split_walk(s, sep, i, buf, depth, quote) == seq![buf]);
    }
}

pub proof fn lemma_split_top_short(s: Seq<char>, sep: char)
    ensures
        forall|k: int|
            0 <= k < split_top_spec(s, sep).len() ==> (#[trigger] split_top_spec(s, sep)[k]).len()
                <= s.len(),
{
    let all = split_walk(s, sep, 0, Seq::empty(), 0, None);
    lemma_split_walk_short(s, sep, 0, Seq::empty(), 0, None);
    let pred = |p: Seq<char>| !blank(p);
    assert forall|k: int| 0 <= k < all.filter(pred).len() implies (#[trigger] all.filter(
        pred,
    )[k]).len() <= s.len() by {
        all.lemma_filter_contains_rev(pred, all.filter(pred)[k]);
    }
}

/// `s` split on every `sep` that sits outside parens, brackets and quotes,
/// blank parts dropped.
pub fn split_top(s: &str, sep: char) -> (parts: Vec<String>)
    ensures
        strings_of(parts@) == split_top_spec(s@, sep),
{
    let cs = chars_of(s);
    let n = cs.len();
    let mut raw: Vec<Vec<char>> = Vec::new();
    let ghost mut done: Seq<Seq<char>> = Seq::empty();
    let mut buf: Vec<char> = Vec::new();
    let mut opens: usize = 0;
    let mut closes: usize = 0;
    let mut quote: Option<char> = None;
    let mut i: usize = 0;
    while i < n
        invariant
            cs@ == s@,
            n == cs@.len(),
            i <= n,
            opens <= i,
            closes <= i,
            raw@.len() == done.len(),
            forall|k: int| 0 <= k < raw@.len() ==> #[trigger] raw@[k]@ == done[k],
            done + split_walk(s@, sep, i as int, buf@, opens - closes, quote) == split_walk(
                s@,
                sep,
                0,
                Seq::empty(),
                0,
                None,
            ),
        decreases n - i,
    {
        let c = cs[i];
        match quote {
            Some(q) => {
                buf.push(c);
                if c == q {
                    quote = None;
                }
            },
            None => {
                if c == sep && opens == closes {
                    proof {
                        let rest = split_walk(s@, sep, i + 1, Seq::empty(), opens - closes, None);
                        assert(done + (seq![buf@] + rest) =~= done.push(buf@) + rest);
                        done = done.push(buf@);
                    }
                    raw.push(buf);
                    buf = Vec::new();
                } else {
                    if c == '"' || c == '\'' {
                        quote = Some(c);
                    } else if c == '(' || c == '[' {
                        opens += 1;
                    } else if c == ')' || c == ']' {
                        closes += 1;
                    }
                    buf.push(c);
                }
            },
        }
        i += 1;
    }
    proof {
        assert(done + seq![buf@] =~= done.push(buf@));
        done = done.push(buf@);
    }
    raw.push(buf);
    let ghost all = split_walk(s@, sep, 0, Seq::empty(), 0, None);
    let ghost pred = |p: Seq<char>| !blank(p);
    assert(done == all);
    let mut parts: Vec<String> = Vec::new();
    let mut k: usize = 0;
    assert(all.take(0).filter(pred) =~= Seq::<Seq<char>>::empty());
    assert(strings_of(parts@) =~= Seq::<Seq<char>>::empty());
    while k < raw.len()
        invariant
            raw@.len() == all.len(),
            forall|q: int| 0 <= q < raw@.len() ==> #[trigger] raw@[q]@ == all[q],
            pred == (|p: Seq<char>| !blank(p)),
            k <= raw@.len(),
            strings_of(parts@) == all.take(k as int).filter(pred),
        decreases raw.len() - k,
    {
        proof {
            crate::seqs::lemma_filter_step(all, pred, k as int);
        }
        if !is_blank(&raw[k]) {
            let ghost before = strings_of(parts@);
            parts.push(string_from(&raw[k]));
            assert(strings_of(parts@) =~= before.push(all[k as int]));
        }
        k += 1;
    }
    assert(all.take(all.len() as int) =~= all);
    parts
}

// ---- the subject of a selector -----------------------------------------

/// A combinator, or the whitespace that is one.
pub open spec fn separates(c: char) -> bool {
    is_ws(c) || c == '>' || c == '+' || c == '~'
}

/// The last compound of `s` from `i` on, when the last one finished is
/// `last` and the one being read is `buf`.
pub open spec fn subject_walk(
    s: Seq<char>,
    i: int,
    last: Seq<char>,
    buf: Seq<char>,
    depth: int,
    quote: Option<char>,
) -> Seq<char>
    decreases s.len() - i,
{
    if i < 0 || i >= s.len() {
        if buf.len() == 0 {
            last
        } else {
            buf
        }
    } else {
        let c = s[i];
        match quote {
            Some(q) => subject_walk(s, i + 1, last, buf.push(c), depth, after_quoted(q, c)),
            None => if depth == 0 && separates(c) {
                if buf.len() > 0 {
                    subject_walk(s, i + 1, buf, Seq::empty(), depth, None)
                } else {
                    subject_walk(s, i + 1, last, buf, depth, None)
                }
            } else if is_quote(c) {
                subject_walk(s, i + 1, last, buf.push(c), depth, Some(c))
            } else {
                subject_walk(s, i + 1, last, buf.push(c), depth_after(depth, c), None)
            },
        }
    }
}

/// The last compound of one comma-free selector: the element its
/// declarations land on.
pub open spec fn subject_spec(s: Seq<char>) -> Seq<char> {
    subject_walk(s, 0, Seq::empty(), Seq::empty(), 0, None)
}

pub proof fn lemma_subject_walk_short(
    s: Seq<char>,
    i: int,
    last: Seq<char>,
    buf: Seq<char>,
    depth: int,
    quote: Option<char>,
)
    requires
        0 <= i <= s.len(),
        last.len() <= s.len(),
        buf.len() <= i,
    ensures
        subject_walk(s, i, last, buf, depth, quote).len() <= s.len(),
    decreases s.len() - i,
{
    if i < s.len() {
        let c = s[i];
        match quote {
            Some(q) => lemma_subject_walk_short(s, i + 1, last, buf.push(c), depth, after_quoted(q, c)),
            None => if depth == 0 && separates(c) {
                if buf.len() > 0 {
                    lemma_subject_walk_short(s, i + 1, buf, Seq::empty(), depth, None);
                } else {
                    lemma_subject_walk_short(s, i + 1, last, buf, depth, None);
                }
            } else if is_quote(c) {
                lemma_subject_walk_short(s, i + 1, last, buf.push(c), depth, Some(c));
            } else {
                lemma_subject_walk_short(s, i + 1, last, buf.push(c), depth_after(depth, c), None);
            },
        }
    }
}

/// The last compound of one comma-free selector — the element its
/// declarations land on. Descendant, `>`, `+` and `~` all say the thing on
/// the right is the subject and the thing on the left is where it has to
/// be.
pub fn subject_of(selector: &str) -> (out: String)
    ensures
        out@ == subject_spec(selector@),
{
    let cs = chars_of(selector);
    let n = cs.len();
    let mut last: Vec<char> = Vec::new();
    let mut buf: Vec<char> = Vec::new();
    let mut opens: usize = 0;
    let mut closes: usize = 0;
    let mut quote: Option<char> = None;
    let mut i: usize = 0;
    while i < n
        invariant
            cs@ == selector@,
            n == cs@.len(),
            i <= n,
            opens <= i,
            closes <= i,
            subject_walk(selector@, i as int, last@, buf@, opens - closes, quote) == subject_spec(
                selector@,
            ),
        decreases n - i,
    {
        let c = cs[i];
        match quote {
            Some(q) => {
                buf.push(c);
                if c == q {
                    quote = None;
                }
            },
            None => {
                if opens == closes && (is_whitespace(c) || c == '>' || c == '+' || c == '~') {
                    if buf.len() > 0 {
                        last = buf;
                        buf = Vec::new();
                    }
                } else {
                    if c == '"' || c == '\'' {
                        quote = Some(c);
                    } else if c == '(' || c == '[' {
                        opens += 1;
                    } else if c == ')' || c == ']' {
                        closes += 1;
                    }
                    buf.push(c);
                }
            },
        }
        i += 1;
    }
    if buf.len() == 0 {
        string_from(&last)
    } else {
        string_from(&buf)
    }
}

// ---- the classes of a compound -----------------------------------------

/// Where the run of class-name characters starting at `e` ends.
pub open spec fn name_end(cs: Seq<char>, e: int) -> int
    decreases cs.len() - e,
{
    if 0 <= e < cs.len() && (is_ascii_alnum(cs[e]) || cs[e] == '-' || cs[e] == '_') {
        name_end(cs, e + 1)
    } else {
        e
    }
}

/// Where the run of pseudo-class-name characters starting at `e` ends.
pub open spec fn alpha_end(cs: Seq<char>, e: int) -> int
    decreases cs.len() - e,
{
    if 0 <= e < cs.len() && (is_ascii_alpha(cs[e]) || cs[e] == '-') {
        alpha_end(cs, e + 1)
    } else {
        e
    }
}

/// The index just past the `close` that brings the depth from `depth` back
/// to zero, reading from `end`; the end of `cs` if none does.
pub open spec fn group_end(cs: Seq<char>, end: int, depth: int, open: char, close: char) -> int
    decreases cs.len() - end,
{
    if end < 0 || end >= cs.len() {
        cs.len() as int
    } else if cs[end] == open {
        group_end(cs, end + 1, depth + 1, open, close)
    } else if cs[end] == close {
        if depth - 1 == 0 {
            end + 1
        } else {
            group_end(cs, end + 1, depth - 1, open, close)
        }
    } else {
        group_end(cs, end + 1, depth, open, close)
    }
}

/// The index just past the `close` that matches the `open` at `at`.
pub open spec fn past_group_spec(cs: Seq<char>, at: int, open: char, close: char) -> int {
    group_end(cs, at, 0, open, close)
}

/// Where a pseudo-class's name starts, past its one or two colons.
pub open spec fn pseudo_start(cs: Seq<char>, at: int) -> int {
    if at + 1 < cs.len() && cs[at + 1] == ':' {
        at + 2
    } else {
        at + 1
    }
}

pub open spec fn pseudo_name_end(cs: Seq<char>, at: int) -> int {
    alpha_end(cs, pseudo_start(cs, at))
}

/// Whether the pseudo-class at `at` takes an argument.
pub open spec fn pseudo_opens(cs: Seq<char>, at: int) -> bool {
    let e = pseudo_name_end(cs, at);
    e < cs.len() && cs[e] == '('
}

/// The index just past the pseudo-class at `at`, its argument included.
pub open spec fn pseudo_next(cs: Seq<char>, at: int) -> int {
    let e = pseudo_name_end(cs, at);
    if pseudo_opens(cs, at) {
        past_group_spec(cs, e, '(', ')')
    } else if e > at + 1 {
        e
    } else {
        at + 1
    }
}

/// `is` and `where`, the pseudo-classes that are the subject written as an
/// alternation.
pub open spec fn is_name() -> Seq<char> {
    seq!['i', 's']
}

pub open spec fn where_name() -> Seq<char> {
    seq!['w', 'h', 'e', 'r', 'e']
}

/// Whether the pseudo-class at `at` is `:is(…)` or `:where(…)`, in any
/// ASCII case.
pub open spec fn pseudo_expands(cs: Seq<char>, at: int) -> bool {
    let name = crate::external::lowered(
        cs.subrange(pseudo_start(cs, at), pseudo_name_end(cs, at)),
    );
    pseudo_opens(cs, at) && (name == is_name() || name == where_name())
}

/// The argument of the pseudo-class at `at`: between its parentheses, or
/// — when they never close — short of the last character.
pub open spec fn pseudo_inner(cs: Seq<char>, at: int) -> Seq<char> {
    let e = pseudo_name_end(cs, at);
    let close = past_group_spec(cs, e, '(', ')');
    let hi = if close >= 1 {
        close - 1
    } else {
        0
    };
    if e + 1 <= hi {
        cs.subrange(e + 1, hi)
    } else {
        Seq::empty()
    }
}

pub proof fn lemma_name_end(cs: Seq<char>, e: int)
    requires
        0 <= e <= cs.len(),
    ensures
        e <= name_end(cs, e) <= cs.len(),
    decreases cs.len() - e,
{
    if e < cs.len() && (is_ascii_alnum(cs[e]) || cs[e] == '-' || cs[e] == '_') {
        lemma_name_end(cs, e + 1);
    }
}

pub proof fn lemma_alpha_end(cs: Seq<char>, e: int)
    requires
        0 <= e <= cs.len(),
    ensures
        e <= alpha_end(cs, e) <= cs.len(),
    decreases cs.len() - e,
{
    if e < cs.len() && (is_ascii_alpha(cs[e]) || cs[e] == '-') {
        lemma_alpha_end(cs, e + 1);
    }
}

pub proof fn lemma_group_end(cs: Seq<char>, end: int, depth: int, open: char, close: char)
    requires
        0 <= end < cs.len(),
    ensures
        end < group_end(cs, end, depth, open, close) <= cs.len(),
    decreases cs.len() - end,
{
    if end + 1 < cs.len() {
        lemma_group_end(cs, end + 1, depth + 1, open, close);
        lemma_group_end(cs, end + 1, depth - 1, open, close);
        lemma_group_end(cs, end + 1, depth, open, close);
    } else {
        assert(group_end(cs, end + 1, depth + 1, open, close) == cs.len());
        assert(group_end(cs, end + 1, depth - 1, open, close) == cs.len());
        assert(group_end(cs, end + 1, depth, open, close) == cs.len());
    }
}

pub proof fn lemma_pseudo(cs: Seq<char>, at: int)
    requires
        0 <= at < cs.len(),
    ensures
        at + 1 <= pseudo_start(cs, at) <= pseudo_name_end(cs, at) <= cs.len(),
        at < pseudo_next(cs, at) <= cs.len(),
        pseudo_inner(cs, at).len() + 2 < cs.len() || pseudo_inner(cs, at).len() == 0,
        pseudo_inner(cs, at).len() + 1 < cs.len() || !pseudo_opens(cs, at),
        pseudo_opens(cs, at) ==> pseudo_name_end(cs, at) < past_group_spec(
            cs,
            pseudo_name_end(cs, at),
            '(',
            ')',
        ) <= cs.len(),
{
    lemma_alpha_end(cs, pseudo_start(cs, at));
    let e = pseudo_name_end(cs, at);
    if e < cs.len() {
        lemma_group_end(cs, e, 0, '(', ')');
    }
}

/// The classes an element matching `cs[at..]` has to carry.
pub open spec fn classes_from(cs: Seq<char>, at: int) -> Set<Seq<char>>
    decreases cs.len(), cs.len() - at,
{
    if at < 0 || at >= cs.len() {
        Set::empty()
    } else if cs[at] == '.' {
        proof {
            lemma_name_end(cs, at + 1);
        }
        let start = at + 1;
        let end = name_end(cs, start);
        let here = if end > start {
            Set::empty().insert(cs.subrange(start, end))
        } else {
            Set::empty()
        };
        here.union(
            classes_from(
                cs,
                if end > start {
                    end
                } else {
                    start
                },
            ),
        )
    } else if cs[at] == '[' {
        proof {
            lemma_group_end(cs, at, 0, '[', ']');
        }
        classes_from(cs, past_group_spec(cs, at, '[', ']'))
    } else if cs[at] == ':' {
        proof {
            lemma_pseudo(cs, at);
        }
        let inner = pseudo_inner(cs, at);
        let expanded = if pseudo_expands(cs, at) {
            alts_classes(split_top_spec(inner, ','), (inner.len() + 1) as nat)
        } else {
            Set::empty()
        };
        expanded.union(classes_from(cs, pseudo_next(cs, at)))
    } else {
        classes_from(cs, at + 1)
    }
}

/// The classes of the subjects of `alts`, each shorter than `bound`.
pub open spec fn alts_classes(alts: Seq<Seq<char>>, bound: nat) -> Set<Seq<char>>
    decreases bound, alts.len(),
{
    if alts.len() == 0 {
        Set::empty()
    } else {
        let subj = subject_spec(alts.last());
        let here = if subj.len() < bound {
            classes_from(subj, 0)
        } else {
            Set::empty()
        };
        alts_classes(alts.drop_last(), bound).union(here)
    }
}

/// What the pseudo-class at `at` contributes: the classes of the subjects
/// of its alternatives if it is `:is(…)` or `:where(…)`, nothing otherwise.
pub open spec fn pseudo_classes(cs: Seq<char>, at: int) -> Set<Seq<char>> {
    if pseudo_expands(cs, at) {
        alts_classes(split_top_spec(pseudo_inner(cs, at), ','), (pseudo_inner(cs, at).len() + 1) as nat)
    } else {
        Set::empty()
    }
}

/// The index just past the `close` that matches the `open` at `at`, or the
/// end of `chars` if it never closes.
pub fn past_group(chars: &Vec<char>, at: usize, open: char, close: char) -> (r: usize)
    requires
        at <= chars@.len(),
    ensures
        r == past_group_spec(chars@, at as int, open, close),
{
    let n = chars.len();
    let mut opens: usize = 0;
    let mut closes: usize = 0;
    let mut end = at;
    while end < n
        invariant
            n == chars@.len(),
            at <= end <= n,
            opens <= end - at,
            closes <= end - at,
            group_end(chars@, end as int, opens - closes, open, close) == past_group_spec(
                chars@,
                at as int,
                open,
                close,
            ),
        decreases n - end,
    {
        let c = chars[end];
        if c == open {
            opens += 1;
        } else if c == close {
            closes += 1;
            if opens == closes {
                return end + 1;
            }
        }
        end += 1;
    }
    n
}

/// The lowered characters of `cs[from..to]` spell `word`.
fn lowered_is(cs: &Vec<char>, from: usize, to: usize, word: &Vec<char>) -> (b: bool)
    requires
        from <= to <= cs@.len(),
    ensures
        b == (crate::external::lowered(cs@.subrange(from as int, to as int)) == word@),
{
    let ghost l = crate::external::lowered(cs@.subrange(from as int, to as int));
    if to - from != word.len() {
        return false;
    }
    let mut k: usize = 0;
    while k < word.len()
        invariant
            from <= to <= cs@.len(),
            to - from == word@.len(),
            l == crate::external::lowered(cs@.subrange(from as int, to as int)),
            k <= word@.len(),
            forall|q: int| 0 <= q < k ==> l[q] == word@[q],
        decreases word.len() - k,
    {
        if to_ascii_lower(cs[from + k]) != word[k] {
            assert(l[k as int] != word@[k as int]);
            return false;
        }
        k += 1;
    }
    assert(l =~= word@);
    true
}

/// Past the pseudo-class or pseudo-element beginning at `at`, having put
/// into `out` the classes it holds if it is a subject alternation.
pub fn past_pseudo(chars: &Vec<char>, at: usize, out: &mut Vec<String>) -> (r: usize)
    requires
        at < chars@.len(),
        ascending(names_view(old(out)@)),
    ensures
        r == pseudo_next(chars@, at as int),
        ascending(names_view(final(out)@)),
        name_set(final(out)@) == name_set(old(out)@).union(pseudo_classes(chars@, at as int)),
    decreases chars@.len(), 0int,
{
    proof {
        lemma_pseudo(chars@, at as int);
    }
    let n = chars.len();
    let mut end = at + 1;
    if end < n && chars[end] == ':' {
        end += 1;
    }
    let start = end;
    while end < n && (('a' <= chars[end] && chars[end] <= 'z') || ('A' <= chars[end] && chars[end]
        <= 'Z') || chars[end] == '-')
        invariant
            n == chars@.len(),
            start <= end <= n,
            alpha_end(chars@, end as int) == alpha_end(chars@, start as int),
        decreases n - end,
    {
        end += 1;
    }
    assert(end == pseudo_name_end(chars@, at as int));
    if !(end < n && chars[end] == '(') {
        assert(name_set(out@).union(Set::empty()) =~= name_set(out@));
        return if end > at + 1 {
            end
        } else {
            at + 1
        };
    }
    let close = past_group(chars, end, '(', ')');
    let is_word = chars_of("is");
    let where_word = chars_of("where");
    proof {
        reveal_strlit("is");
        reveal_strlit("where");
        assert(is_word@ =~= is_name());
        assert(where_word@ =~= where_name());
    }
    if lowered_is(chars, start, end, &is_word) || lowered_is(chars, start, end, &where_word) {
        let hi = if close >= 1 {
            close - 1
        } else {
            0
        };
        let inner_chars = if end + 1 <= hi {
            slice_chars(chars, end + 1, hi)
        } else {
            Vec::new()
        };
        let ghost inner = pseudo_inner(chars@, at as int);
        assert(inner_chars@ =~= inner);
        let inner_text = string_from(&inner_chars);
        let alts = split_top(inner_text.as_str(), ',');
        let ghost av = split_top_spec(inner, ',');
        let ghost bound = (inner.len() + 1) as nat;
        let ghost base = name_set(out@);
        proof {
            lemma_split_top_short(inner, ',');
        }
        let mut k: usize = 0;
        assert(av.take(0) =~= Seq::<Seq<char>>::empty());
        assert(base.union(alts_classes(av.take(0), bound)) =~= base);
        while k < alts.len()
            invariant
                strings_of(alts@) == av,
                av == split_top_spec(inner, ','),
                forall|q: int| 0 <= q < av.len() ==> (#[trigger] av[q]).len() <= inner.len(),
                bound == inner.len() + 1,
                inner.len() + 1 < chars@.len(),
                k <= alts@.len(),
                ascending(names_view(out@)),
                name_set(out@) == base.union(alts_classes(av.take(k as int), bound)),
            decreases alts.len() - k,
        {
            assert(av.take(k + 1).drop_last() =~= av.take(k as int));
            assert(av.take(k + 1).last() == av[k as int]);
            let subject = subject_of(alts[k].as_str());
            proof {
                lemma_subject_walk_short(av[k as int], 0, Seq::empty(), Seq::empty(), 0, None);
            }
            let ghost before = name_set(out@);
            compound_classes(subject.as_str(), out);
            assert(name_set(out@) =~= base.union(alts_classes(av.take(k + 1), bound)));
            k += 1;
        }
        assert(av.take(av.len() as int) =~= av);
    } else {
        assert(name_set(out@).union(Set::empty()) =~= name_set(out@));
    }
    close
}

/// The classes an element matching `compound` has to carry, put into the
/// ascending `out`.
///
/// `:is(…)` and `:where(…)` expand, because those are the subject written
/// as an alternation; `:not(…)` and `:has(…)` do not, because a guard is
/// not a subject. Attribute selectors are skipped whole.
pub fn compound_classes(compound: &str, out: &mut Vec<String>)
    requires
        ascending(names_view(old(out)@)),
    ensures
        ascending(names_view(final(out)@)),
        name_set(final(out)@) == name_set(old(out)@).union(classes_from(compound@, 0)),
    decreases compound@.len(), 1int,
{
    let chars = chars_of(compound);
    let ghost cs = compound@;
    let ghost base = name_set(out@);
    let n = chars.len();
    let mut at: usize = 0;
    while at < n
        invariant
            chars@ == cs,
            cs == compound@,
            n == cs.len(),
            at <= n,
            ascending(names_view(out@)),
            name_set(out@).union(classes_from(cs, at as int)) == base.union(classes_from(cs, 0)),
        decreases n - at,
    {
        let ghost before = name_set(out@);
        if chars[at] == '.' {
            let start = at + 1;
            let mut end = start;
            proof {
                lemma_name_end(cs, start as int);
            }
            while end < n && (('a' <= chars[end] && chars[end] <= 'z') || ('A' <= chars[end]
                && chars[end] <= 'Z') || ('0' <= chars[end] && chars[end] <= '9') || chars[end]
                == '-' || chars[end] == '_')
                invariant
                    n == chars@.len(),
                    chars@ == cs,
                    start <= end <= n,
                    name_end(cs, end as int) == name_end(cs, start as int),
                decreases n - end,
            {
                end += 1;
            }
            if end > start {
                let name = string_from(&slice_chars(&chars, start, end));
                insert_name(out, name);
            }
            let next = if end > start {
                end
            } else {
                start
            };
            assert(name_set(out@).union(classes_from(cs, next as int)) =~= before.union(
                classes_from(cs, at as int),
            ));
            at = next;
        } else if chars[at] == '[' {
            proof {
                lemma_group_end(cs, at as int, 0, '[', ']');
            }
            at = past_group(&chars, at, '[', ']');
        } else if chars[at] == ':' {
            proof {
                lemma_pseudo(cs, at as int);
            }
            let next = past_pseudo(&chars, at, out);
            assert(name_set(out@).union(classes_from(cs, next as int)) =~= before.union(
                classes_from(cs, at as int),
            ));
            at = next;
        } else {
            at += 1;
        }
    }
    assert(classes_from(cs, n as int) =~= Set::<Seq<char>>::empty());
    assert(name_set(out@).union(Set::<Seq<char>>::empty()) =~= name_set(out@));
}

// ---- the rules of a sheet ----------------------------------------------

/// The selector lists of `s` from `i` on that introduce a declaration
/// block, when the text read since the last brace is `buf`.
pub open spec fn selector_walk(s: Seq<char>, i: int, buf: Seq<char>, quote: Option<char>) -> Seq<
    Seq<char>,
>
    decreases s.len() - i,
{
    if i < 0 || i >= s.len() {
        Seq::empty()
    } else {
        let c = s[i];
        match quote {
            Some(q) => selector_walk(s, i + 1, buf.push(c), after_quoted(q, c)),
            None => if is_quote(c) {
                selector_walk(s, i + 1, buf.push(c), Some(c))
            } else if c == '{' {
                let sel = trim_ws(buf);
                let rest = selector_walk(s, i + 1, Seq::empty(), None);
                if sel.len() > 0 && sel[0] != '@' {
                    seq![sel] + rest
                } else {
                    rest
                }
            } else if c == '}' {
                selector_walk(s, i + 1, Seq::empty(), None)
            } else {
                selector_walk(s, i + 1, buf.push(c), None)
            },
        }
    }
}

/// Every selector list in `css` that introduces a declaration block, the
/// comments taken out first. At-rules are skipped by their `@` and walked
/// into, so a rule inside `@media` is read like any other.
pub open spec fn selectors_spec(css: Seq<char>) -> Seq<Seq<char>> {
    selector_walk(uncommented(css, 0), 0, Seq::empty(), None)
}

/// Every selector list in `css` that introduces a declaration block.
///
/// At-rules are skipped by their `@` and walked into, so a rule inside
/// `@media (min-width: 1200px)` is read like any other — a responsive
/// override is still somebody having decided. A `{` inside a string does
/// not open a rule.
pub fn selectors(css: &str) -> (out: Vec<String>)
    ensures
        strings_of(out@) == selectors_spec(css@),
{
    let stripped = without_comments(css);
    let cs = chars_of(stripped.as_str());
    let ghost s = stripped@;
    let n = cs.len();
    let mut out: Vec<String> = Vec::new();
    let mut buf: Vec<char> = Vec::new();
    let mut quote: Option<char> = None;
    let mut i: usize = 0;
    assert(strings_of(out@) =~= Seq::<Seq<char>>::empty());
    while i < n
        invariant
            cs@ == s,
            s == uncommented(css@, 0),
            n == s.len(),
            i <= n,
            strings_of(out@) + selector_walk(s, i as int, buf@, quote) == selectors_spec(css@),
        decreases n - i,
    {
        let c = cs[i];
        let ghost before = strings_of(out@);
        match quote {
            Some(q) => {
                buf.push(c);
                if c == q {
                    quote = None;
                }
            },
            None => {
                if c == '"' || c == '\'' {
                    quote = Some(c);
                    buf.push(c);
                } else if c == '{' {
                    let selector = trim_chars(&buf);
                    buf = Vec::new();
                    if selector.len() > 0 && selector[0] != '@' {
                        out.push(string_from(&selector));
                        assert(strings_of(out@) =~= before.push(selector@));
                        assert(before.push(selector@) + selector_walk(s, i + 1, Seq::empty(), None)
                            =~= before + (seq![selector@] + selector_walk(
                            s,
                            i + 1,
                            Seq::empty(),
                            None,
                        )));
                    }
                } else if c == '}' {
                    buf = Vec::new();
                } else {
                    buf.push(c);
                }
            },
        }
        i += 1;
    }
    assert(strings_of(out@) + Seq::<Seq<char>>::empty() =~= strings_of(out@));
    out
}

/// The classes on the subjects of the comma-separated parts `parts`.
pub open spec fn parts_classes(parts: Seq<Seq<char>>) -> Set<Seq<char>>
    decreases parts.len(),
{
    if parts.len() == 0 {
        Set::empty()
    } else {
        parts_classes(parts.drop_last()).union(classes_from(subject_spec(parts.last()), 0))
    }
}

/// The classes on the subjects of the rules whose selector lists are
/// `sels`.
pub open spec fn selectors_classes(sels: Seq<Seq<char>>) -> Set<Seq<char>>
    decreases sels.len(),
{
    if sels.len() == 0 {
        Set::empty()
    } else {
        selectors_classes(sels.drop_last()).union(parts_classes(split_top_spec(sels.last(), ',')))
    }
}

/// Every class on the subject of every rule in one sheet.
pub open spec fn subjects_spec(css: Seq<char>) -> Set<Seq<char>> {
    selectors_classes(selectors_spec(css))
}

/// Every class on the SUBJECT of every rule in one sheet, in ascending
/// order.
pub fn subjects_of(css: &str) -> (out: Vec<String>)
    ensures
        ascending(names_view(out@)),
        name_set(out@) == subjects_spec(css@),
{
    let sels = selectors(css);
    let ghost sv = selectors_spec(css@);
    let mut out: Vec<String> = Vec::new();
    let mut k: usize = 0;
    assert(names_view(out@) =~= Seq::<Seq<char>>::empty());
    assert(sv.take(0) =~= Seq::<Seq<char>>::empty());
    assert(name_set(out@) =~= selectors_classes(sv.take(0)));
    while k < sels.len()
        invariant
            strings_of(sels@) == sv,
            k <= sels@.len(),
            ascending(names_view(out@)),
            name_set(out@) == selectors_classes(sv.take(k as int)),
        decreases sels.len() - k,
    {
        assert(sv.take(k + 1).drop_last() =~= sv.take(k as int));
        assert(sv.take(k + 1).last() == sv[k as int]);
        let parts = split_top(sels[k].as_str(), ',');
        let ghost pv = split_top_spec(sv[k as int], ',');
        let ghost base = name_set(out@);
        let mut p: usize = 0;
        assert(pv.take(0) =~= Seq::<Seq<char>>::empty());
        assert(base.union(parts_classes(pv.take(0))) =~= base);
        while p < parts.len()
            invariant
                strings_of(parts@) == pv,
                p <= parts@.len(),
                ascending(names_view(out@)),
                name_set(out@) == base.union(parts_classes(pv.take(p as int))),
            decreases parts.len() - p,
        {
            assert(pv.take(p + 1).drop_last() =~= pv.take(p as int));
            assert(pv.take(p + 1).last() == pv[p as int]);
            let subject = subject_of(parts[p].as_str());
            compound_classes(subject.as_str(), &mut out);
            assert(name_set(out@) =~= base.union(parts_classes(pv.take(p + 1))));
            p += 1;
        }
        assert(pv.take(pv.len() as int) =~= pv);
        k += 1;
    }
    assert(sv.take(sv.len() as int) =~= sv);
    out
}

/// The classes the shared sheet styles.
pub fn styled_classes(shared: &str) -> (out: Vec<String>)
    ensures
        ascending(names_view(out@)),
        name_set(out@) == subjects_spec(shared@),
{
    subjects_of(shared)
}

pub open spec fn sheet_bodies(parts: Seq<(String, String)>) -> Seq<Seq<char>> {
    parts.map_values(|p: (String, String)| p.1@)
}

/// The classes the rules of `sheets` decide, sheet by sheet.
pub open spec fn decided_spec(sheets: Seq<Seq<char>>) -> Set<Seq<char>>
    decreases sheets.len(),
{
    if sheets.len() == 0 {
        Set::empty()
    } else {
        decided_spec(sheets.drop_last()).union(subjects_spec(sheets.last()))
    }
}

/// The classes the desktop sheets decide, given as (file name, sheet).
pub fn decided_classes(parts: &Vec<(String, String)>) -> (out: Vec<String>)
    ensures
        ascending(names_view(out@)),
        name_set(out@) == decided_spec(sheet_bodies(parts@)),
{
    let ghost bodies = sheet_bodies(parts@);
    let mut out: Vec<String> = Vec::new();
    let mut k: usize = 0;
    assert(names_view(out@) =~= Seq::<Seq<char>>::empty());
    assert(bodies.take(0) =~= Seq::<Seq<char>>::empty());
    assert(name_set(out@) =~= decided_spec(bodies.take(0)));
    while k < parts.len()
        invariant
            bodies == sheet_bodies(parts@),
            k <= parts@.len(),
            ascending(names_view(out@)),
            name_set(out@) == decided_spec(bodies.take(k as int)),
        decreases parts.len() - k,
    {
        assert(bodies.take(k + 1).drop_last() =~= bodies.take(k as int));
        assert(bodies.take(k + 1).last() == parts@[k as int].1@);
        let found = subjects_of(parts[k].1.as_str());
        let ghost base = name_set(out@);
        let mut q: usize = 0;
        while q < found.len()
            invariant
                ascending(names_view(out@)),
                q <= found@.len(),
                name_set(out@) == base.union(names_view(found@).take(q as int).to_set()),
            decreases found.len() - q,
        {
            let ghost before = name_set(out@);
            let name = found[q].clone();
            insert_name(&mut out, name);
            assert(names_view(found@).take(q + 1) =~= names_view(found@).take(q as int).push(
                found@[q as int]@,
            ));
            assert(names_view(found@).take(q + 1).to_set() =~= names_view(found@).take(
                q as int,
            ).to_set().insert(found@[q as int]@)) by {
                names_view(found@).take(q as int).lemma_push_to_set_commute(found@[q as int]@);
            }
            assert(name_set(out@) =~= base.union(names_view(found@).take(q + 1).to_set()));
            q += 1;
        }
        assert(names_view(found@).take(found@.len() as int) =~= names_view(found@));
        assert(name_set(out@) =~= decided_spec(bodies.take(k + 1)));
        k += 1;
    }
    assert(bodies.take(bodies.len() as int) =~= bodies);
    out
}

// ---- what a source file renders ----------------------------------------

/// Where an `rsx!` attribute value that starts at `i` ends, at nesting
/// `depth` and inside a string or not.
pub open spec fn value_end(s: Seq<char>, i: int, depth: int, quoted: bool) -> int
    decreases s.len() - i,
{
    if i < 0 || i >= s.len() {
        s.len() as int
    } else {
        let c = s[i];
        if quoted {
            value_end(s, i + 1, depth, c != '"')
        } else if c == '"' {
            value_end(s, i + 1, depth, true)
        } else if c == '{' || c == '(' {
            value_end(s, i + 1, depth + 1, false)
        } else if c == '}' || c == ')' {
            if depth - 1 < 0 {
                i
            } else {
                value_end(s, i + 1, depth - 1, false)
            }
        } else if c == ',' && depth == 0 {
            i
        } else {
            value_end(s, i + 1, depth, false)
        }
    }
}

/// The source of one attribute value: from `rest` to the comma that ends
/// it, or to the brace or paren that closes the element it is on.
pub open spec fn attribute_value_spec(rest: Seq<char>) -> Seq<char> {
    rest.take(value_end(rest, 0, 0, false))
}

proof fn lemma_value_end(s: Seq<char>, i: int, depth: int, quoted: bool)
    requires
        0 <= i <= s.len(),
    ensures
        i <= value_end(s, i, depth, quoted) <= s.len(),
    decreases s.len() - i,
{
    if i < s.len() {
        let c = s[i];
        lemma_value_end(s, i + 1, depth, c != '"');
        lemma_value_end(s, i + 1, depth, true);
        lemma_value_end(s, i + 1, depth + 1, false);
        lemma_value_end(s, i + 1, depth - 1, false);
        lemma_value_end(s, i + 1, depth, false);
    }
}

/// The source of one `rsx!` attribute value: from `rest` to the comma that
/// ends it.
///
/// Not a split on commas: an attribute written `class: if on { "a b" } else
/// { "a" },` would lose its second branch. Depth counts braces and parens
/// together, so `class: value_class(a, b),` is one value and not two; a
/// closing brace or paren that takes the depth below zero is the end of
/// the element, and the value was its last one.
pub fn attribute_value(rest: &str) -> (out: &str)
    ensures
        out@ == attribute_value_spec(rest@),
{
    let cs = chars_of(rest);
    let n = cs.len();
    let mut depth: usize = 0;
    let mut quoted = false;
    let mut at: usize = 0;
    proof {
        lemma_value_end(rest@, 0, 0, false);
    }
    while at < n
        invariant
            cs@ == rest@,
            n == cs@.len(),
            at <= n,
            depth <= at,
            value_end(rest@, at as int, depth as int, quoted) == value_end(rest@, 0, 0, false),
        decreases n - at,
    {
        let c = cs[at];
        if quoted {
            quoted = c != '"';
        } else if c == '"' {
            quoted = true;
        } else if c == '{' || c == '(' {
            depth += 1;
        } else if c == '}' || c == ')' {
            if depth == 0 {
                assert(rest@.subrange(0, at as int) =~= rest@.take(at as int));
                return rest.substring_char(0, at);
            }
            depth -= 1;
        } else if c == ',' && depth == 0 {
            assert(rest@.subrange(0, at as int) =~= rest@.take(at as int));
            return rest.substring_char(0, at);
        }
        at += 1;
    }
    assert(rest@.take(n as int) =~= rest@);
    rest
}

/// The lines of `ls` joined by `\n`.
pub open spec fn joined(ls: Seq<Seq<char>>) -> Seq<char>
    decreases ls.len(),
{
    if ls.len() == 0 {
        Seq::empty()
    } else if ls.len() == 1 {
        ls[0]
    } else {
        joined(ls.drop_last()) + seq!['\n'] + ls.last()
    }
}

/// Whether a line ends a top-level item: it ends in `;`, or it is a `}`
/// alone.
pub open spec fn ends_item(line: Seq<char>) -> bool {
    (crate::text::trim_end_ws(line).len() > 0 && crate::text::trim_end_ws(line).last() == ';')
        || line == seq!['}']
}

/// Whether a line starts in column 0.
pub open spec fn top_level(line: Seq<char>) -> bool {
    !(line.len() > 0 && is_ws(line[0]))
}

/// The lines kept so far, and whether the item under a marker is still
/// being skipped.
pub open spec fn cut_state(ls: Seq<Seq<char>>, marker: Seq<char>) -> (Seq<Seq<char>>, bool)
    decreases ls.len(),
{
    if ls.len() == 0 {
        (Seq::empty(), false)
    } else {
        let (kept, skipping) = cut_state(ls.drop_last(), marker);
        let line = ls.last();
        if skipping {
            (kept, !(top_level(line) && ends_item(line)))
        } else if line == marker {
            (kept, true)
        } else {
            (kept.push(line), false)
        }
    }
}

/// `code` with every top-level item annotated `marker` removed.
pub open spec fn without_items_spec(code: Seq<char>, marker: Seq<char>) -> Seq<char> {
    joined(cut_state(crate::text::lines(code), marker).0)
}

fn join_lines(ls: &Vec<Vec<char>>) -> (out: String)
    ensures
        out@ == joined(crate::text::line_views(ls@)),
{
    let ghost lv = crate::text::line_views(ls@);
    let mut acc: Vec<char> = Vec::new();
    let mut k: usize = 0;
    assert(lv.take(0) =~= Seq::<Seq<char>>::empty());
    while k < ls.len()
        invariant
            lv == crate::text::line_views(ls@),
            k <= ls@.len(),
            acc@ == joined(lv.take(k as int)),
        decreases ls.len() - k,
    {
        assert(lv.take(k + 1).drop_last() =~= lv.take(k as int));
        let line = &ls[k];
        if k > 0 {
            acc.push('\n');
        } else {
            assert(lv.take(1) =~= seq![line@]);
        }
        let ghost before = acc@;
        let mut q: usize = 0;
        while q < line.len()
            invariant
                q <= line@.len(),
                acc@ == before + line@.take(q as int),
            decreases line.len() - q,
        {
            acc.push(line[q]);
            assert(acc@ =~= before + line@.take(q + 1));
            q += 1;
        }
        assert(line@.take(line@.len() as int) =~= line@);
        assert(lv.take(k + 1).last() == line@);
        assert(acc@ =~= joined(lv.take(k + 1)));
        k += 1;
    }
    assert(lv.take(ls@.len() as int) =~= lv);
    string_from(&acc)
}

fn line_ends_item(line: &Vec<char>) -> (b: bool)
    ensures
        b == ends_item(line@),
{
    let t = crate::text::trim_end_chars(line);
    let semi = t.len() > 0 && t[t.len() - 1] == ';';
    let brace = line.len() == 1 && line[0] == '}';
    assert(brace == (line@ =~= seq!['}']));
    semi || brace
}

/// `code` with every top-level item annotated `marker` removed.
///
/// Line-based, and a formatter is what makes that sound: a top-level item
/// starts at column 0 and ends either at a line ending in `;` or at a `}`
/// alone in column 0, and everything in between is indented — so the cut
/// needs no brace matching.
pub fn without_items_under(code: &str, marker: &str) -> (out: String)
    ensures
        out@ == without_items_spec(code@, marker@),
{
    let ls = crate::text::split_lines(&chars_of(code));
    let m = chars_of(marker);
    let ghost l = crate::text::lines(code@);
    let mut kept: Vec<Vec<char>> = Vec::new();
    let mut skipping = false;
    let mut k: usize = 0;
    assert(l.take(0) =~= Seq::<Seq<char>>::empty());
    assert(crate::text::line_views(kept@) =~= Seq::<Seq<char>>::empty());
    while k < ls.len()
        invariant
            ls@.len() == l.len(),
            forall|q: int| 0 <= q < ls@.len() ==> #[trigger] ls@[q]@ == l[q],
            m@ == marker@,
            k <= ls@.len(),
            cut_state(l.take(k as int), marker@) == (crate::text::line_views(kept@), skipping),
        decreases ls.len() - k,
    {
        assert(l.take(k + 1).drop_last() =~= l.take(k as int));
        assert(l.take(k + 1).last() == ls@[k as int]@);
        let line = &ls[k];
        if skipping {
            let top = !(line.len() > 0 && is_whitespace(line[0]));
            let ends = line_ends_item(line);
            skipping = !(top && ends);
        } else if crate::names::lex_less(line, &m) || crate::names::lex_less(&m, line) {
            proof {
                crate::names::lemma_lex_irreflexive(line@);
            }
            let ghost before = crate::text::line_views(kept@);
            kept.push(crate::text::slice_chars(line, 0, line.len()));
            assert(line@.subrange(0, line@.len() as int) =~= line@);
            assert(crate::text::line_views(kept@) =~= before.push(line@));
        } else {
            proof {
                crate::names::lemma_lex_total(line@, m@);
            }
            skipping = true;
        }
        k += 1;
    }
    assert(l.take(ls@.len() as int) =~= l);
    join_lines(&kept)
}

/// The attribute that marks an item as test code.
pub open spec fn test_marker() -> Seq<char> {
    "#["@ + "cfg"@ + "(test)]"@
}

/// The attribute that marks an item as the phone's alone.
pub open spec fn phone_marker() -> Seq<char> {
    "#["@ + "cfg"@ + "(any(target_os = \"ios\", target_os = \"android\"))]"@
}

fn test_only() -> (s: String)
    ensures
        s@ == test_marker(),
{
    let mut s = String::new();
    crate::text::push_str(&mut s, "#[");
    crate::text::push_str(&mut s, "cfg");
    crate::text::push_str(&mut s, "(test)]");
    s
}

fn phone_only() -> (s: String)
    ensures
        s@ == phone_marker(),
{
    let mut s = String::new();
    crate::text::push_str(&mut s, "#[");
    crate::text::push_str(&mut s, "cfg");
    crate::text::push_str(&mut s, "(any(target_os = \"ios\", target_os = \"android\"))]");
    s
}

/// `//`.
pub open spec fn slashes() -> Seq<char> {
    seq!['/', '/']
}

/// Whether a line is a comment line: `//` after its indentation.
pub open spec fn comment_line(line: Seq<char>) -> bool {
    crate::text::holds_at(crate::text::trim_start_ws(line), 0, slashes())
}

/// `source` without its comment lines.
pub open spec fn prose_free(source: Seq<char>) -> Seq<char> {
    joined(crate::text::lines(source).filter(|l: Seq<char>| !comment_line(l)))
}

/// The part of `source` a desktop binary compiles and no test wrote: the
/// comment lines gone first, then every top-level item under the test
/// attribute, then every one under the phone attribute.
pub open spec fn desktop_spec(source: Seq<char>) -> Seq<char> {
    without_items_spec(without_items_spec(prose_free(source), test_marker()), phone_marker())
}

/// Whether `s` holds `w` anywhere.
pub open spec fn contains_text(s: Seq<char>, w: Seq<char>) -> bool {
    exists|i: int| crate::text::holds_at(s, i, w)
}

/// Whether the cut left no marker behind: an indented one — on a method in
/// an `impl`, or inside another item — is one the line-based cut cannot see.
pub open spec fn cut_is_clean(source: Seq<char>) -> bool {
    !contains_text(desktop_spec(source), test_marker()) && !contains_text(
        desktop_spec(source),
        phone_marker(),
    )
}

/// The part of `source` a desktop binary compiles and no test wrote.
///
/// Comment lines go first, so that prose quoting an attribute cannot answer
/// a question about code, and so that the two cuts cannot be triggered by a
/// doc comment naming the attribute they look for. The cuts are
/// line-based, so they only ever remove an item at column 0: a source whose
/// cut leaves a marker behind is outside what this can read.
pub fn desktop_code(name: &str, source: &str) -> (out: String)
    requires
        cut_is_clean(source@),
    ensures
        out@ == desktop_spec(source@),
{
    let ls = crate::text::split_lines(&chars_of(source));
    let ghost l = crate::text::lines(source@);
    let ghost keep = |line: Seq<char>| !comment_line(line);
    let dashes = chars_of("//");
    proof {
        reveal_strlit("//");
        assert(dashes@ =~= slashes());
    }
    let mut kept: Vec<Vec<char>> = Vec::new();
    let mut k: usize = 0;
    assert(l.take(0).filter(keep) =~= Seq::<Seq<char>>::empty());
    assert(crate::text::line_views(kept@) =~= Seq::<Seq<char>>::empty());
    while k < ls.len()
        invariant
            ls@.len() == l.len(),
            forall|q: int| 0 <= q < ls@.len() ==> #[trigger] ls@[q]@ == l[q],
            dashes@ == slashes(),
            keep == (|line: Seq<char>| !comment_line(line)),
            k <= ls@.len(),
            crate::text::line_views(kept@) == l.take(k as int).filter(keep),
        decreases ls.len() - k,
    {
        proof {
            crate::seqs::lemma_filter_step(l, keep, k as int);
        }
        let lead = crate::text::trim_start_chars(&ls[k]);
        if !crate::text::starts_at(&lead, 0, &dashes) {
            let ghost before = crate::text::line_views(kept@);
            kept.push(crate::text::slice_chars(&ls[k], 0, ls[k].len()));
            assert(ls@[k as int]@.subrange(0, ls@[k as int]@.len() as int) =~= ls@[k as int]@);
            assert(crate::text::line_views(kept@) =~= before.push(l[k as int]));
        }
        k += 1;
    }
    assert(l.take(ls@.len() as int) =~= l);
    let prose = join_lines(&kept);
    let no_tests = without_items_under(prose.as_str(), test_only().as_str());
    without_items_under(no_tests.as_str(), phone_only().as_str())
}

/// `class:`.
pub open spec fn class_word() -> Seq<char> {
    seq!['c', 'l', 'a', 's', 's', ':']
}

/// Where each `class:` attribute value in `cs` from `i` on starts.
pub open spec fn attr_starts(cs: Seq<char>, i: int) -> Seq<int>
    decreases cs.len() - i,
{
    if i < 0 || i >= cs.len() {
        Seq::empty()
    } else if crate::text::holds_at(cs, i, class_word()) {
        seq![i + 6] + attr_starts(cs, i + 6)
    } else {
        attr_starts(cs, i + 1)
    }
}

/// The fields of `s` from `i` on between `"`s, when the field being read
/// is `cur`.
pub open spec fn fields_from(s: Seq<char>, i: int, cur: Seq<char>) -> Seq<Seq<char>>
    decreases s.len() - i,
{
    if i < 0 || i >= s.len() {
        seq![cur]
    } else if s[i] == '"' {
        seq![cur] + fields_from(s, i + 1, Seq::empty())
    } else {
        fields_from(s, i + 1, cur.push(s[i]))
    }
}

/// The string literals of an attribute value: the odd fields between its
/// `"`s, so both arms of an `if` are read.
pub open spec fn literals_of(value: Seq<char>) -> Seq<Seq<char>> {
    let fs = fields_from(value, 0, Seq::empty());
    Seq::new(fs.len() / 2, |k: int| fs[2 * k + 1])
}

/// Whether a token is a name the browser sees: a `{…}` interpolation is
/// decided at run time.
pub open spec fn plain_token(t: Seq<char>) -> bool {
    !t.contains('{') && !t.contains('}')
}

/// The class names in the literals `lits`, in order.
pub open spec fn literal_tokens(lits: Seq<Seq<char>>) -> Seq<Seq<char>>
    decreases lits.len(),
{
    if lits.len() == 0 {
        Seq::empty()
    } else {
        literal_tokens(lits.drop_last()) + crate::text::words(lits.last()).filter(
            |t: Seq<char>| plain_token(t),
        )
    }
}

/// The class names of the values that start at `starts`, in order.
pub open spec fn tokens_at(cs: Seq<char>, starts: Seq<int>) -> Seq<Seq<char>>
    decreases starts.len(),
{
    if starts.len() == 0 {
        Seq::empty()
    } else {
        tokens_at(cs, starts.drop_last()) + literal_tokens(
            literals_of(attribute_value_spec(cs.skip(starts.last()))),
        )
    }
}

/// Every class name written as a `class:` string literal in `code`, in
/// order.
pub open spec fn class_tokens(code: Seq<char>) -> Seq<Seq<char>> {
    tokens_at(code, attr_starts(code, 0))
}

/// The fields of `v` between `"`s.
fn quote_fields(v: &Vec<char>) -> (out: Vec<Vec<char>>)
    ensures
        crate::text::line_views(out@) == fields_from(v@, 0, Seq::empty()),
{
    let mut out: Vec<Vec<char>> = Vec::new();
    let mut cur: Vec<char> = Vec::new();
    let mut i: usize = 0;
    assert(crate::text::line_views(out@) =~= Seq::<Seq<char>>::empty());
    while i < v.len()
        invariant
            i <= v@.len(),
            crate::text::line_views(out@) + fields_from(v@, i as int, cur@) == fields_from(
                v@,
                0,
                Seq::empty(),
            ),
        decreases v.len() - i,
    {
        if v[i] == '"' {
            let ghost before = crate::text::line_views(out@);
            let ghost c = cur@;
            out.push(cur);
            cur = Vec::new();
            assert(crate::text::line_views(out@) =~= before.push(c));
            assert(before.push(c) + fields_from(v@, i + 1, Seq::empty()) =~= before + (seq![c]
                + fields_from(v@, i + 1, Seq::empty())));
        } else {
            cur.push(v[i]);
        }
        i += 1;
    }
    let ghost before = crate::text::line_views(out@);
    let ghost c = cur@;
    out.push(cur);
    assert(crate::text::line_views(out@) =~= before + seq![c]);
    out
}

fn plain(t: &Vec<char>) -> (b: bool)
    ensures
        b == plain_token(t@),
{
    let mut k: usize = 0;
    while k < t.len()
        invariant
            k <= t@.len(),
            forall|q: int| 0 <= q < k ==> t@[q] != '{' && t@[q] != '}',
        decreases t.len() - k,
    {
        if t[k] == '{' || t[k] == '}' {
            assert(t@.contains(t@[k as int]));
            return false;
        }
        k += 1;
    }
    true
}

/// Every class name written as a `class:` string literal in `code`, in
/// order: both arms of a conditional value are read, and a token that
/// interpolates is skipped.
pub fn classes_written(code: &str) -> (out: Vec<String>)
    ensures
        strings_of(out@) == class_tokens(code@),
{
    let cs = chars_of(code);
    let n = cs.len();
    let word = chars_of("class:");
    proof {
        reveal_strlit("class:");
        assert(word@ =~= class_word());
    }
    let ghost starts_all = attr_starts(code@, 0);
    let ghost mut seen: Seq<int> = Seq::empty();
    let mut out: Vec<String> = Vec::new();
    let mut i: usize = 0;
    assert(strings_of(out@) =~= Seq::<Seq<char>>::empty());
    while i < n
        invariant
            cs@ == code@,
            n == cs@.len(),
            word@ == class_word(),
            i <= n,
            seen + attr_starts(code@, i as int) == starts_all,
            strings_of(out@) == tokens_at(code@, seen),
        decreases n - i,
    {
        if crate::text::starts_at(&cs, i, &word) {
            let start = i + 6;
            let rest = code.substring_char(start, n);
            assert(rest@ =~= code@.skip(start as int));
            let value = chars_of(attribute_value(rest));
            let fields = quote_fields(&value);
            let ghost fv = fields_from(value@, 0, Seq::empty());
            let ghost lits = literals_of(value@);
            let ghost base = strings_of(out@);
            let mut f: usize = 1;
            let mut lk: usize = 0;
            assert(lits.take(0) =~= Seq::<Seq<char>>::empty());
            assert(base + literal_tokens(lits.take(0)) =~= base);
            while f < fields.len()
                invariant
                    crate::text::line_views(fields@) == fv,
                    fv == fields_from(value@, 0, Seq::empty()),
                    lits == literals_of(value@),
                    f == 2 * lk + 1,
                    lk <= lits.len(),
                    lk < lits.len() <==> f < fields@.len(),
                    strings_of(out@) == base + literal_tokens(lits.take(lk as int)),
                decreases lits.len() - lk,
            {
                assert(lits[lk as int] == fields@[f as int]@);
                assert(lits.take(lk + 1).drop_last() =~= lits.take(lk as int));
                let tokens = crate::text::split_words(&fields[f]);
                let ghost ws = crate::text::words(lits[lk as int]);
                let ghost pred = |t: Seq<char>| plain_token(t);
                let ghost mid = strings_of(out@);
                let mut t: usize = 0;
                assert(ws.take(0).filter(pred) =~= Seq::<Seq<char>>::empty());
                assert(mid + ws.take(0).filter(pred) =~= mid);
                while t < tokens.len()
                    invariant
                        tokens@.len() == ws.len(),
                        forall|q: int| 0 <= q < tokens@.len() ==> #[trigger] tokens@[q]@ == ws[q],
                        pred == (|t: Seq<char>| plain_token(t)),
                        t <= tokens@.len(),
                        strings_of(out@) == mid + ws.take(t as int).filter(pred),
                    decreases tokens.len() - t,
                {
                    proof {
                        crate::seqs::lemma_filter_step(ws, pred, t as int);
                    }
                    if plain(&tokens[t]) {
                        let ghost before = strings_of(out@);
                        out.push(string_from(&tokens[t]));
                        assert(strings_of(out@) =~= before.push(ws[t as int]));
                        assert(mid + ws.take(t + 1).filter(pred) =~= (mid + ws.take(t as int).filter(
                            pred,
                        )).push(ws[t as int]));
                    }
                    t += 1;
                }
                assert(ws.take(ws.len() as int) =~= ws);
                assert(lits.take(lk + 1).last() == lits[lk as int]);
                assert(strings_of(out@) =~= base + literal_tokens(lits.take(lk + 1)));
                f += 2;
                lk += 1;
            }
            assert(lits.take(lits.len() as int) =~= lits);
            proof {
                assert(seen.push(start as int).drop_last() =~= seen);
                assert(seen.push(start as int) + attr_starts(code@, start as int) =~= seen + (seq![
                    start as int,
                ] + attr_starts(code@, start as int)));
                seen = seen.push(start as int);
            }
            i = start;
        } else {
            i += 1;
        }
    }
    assert(seen + Seq::<int>::empty() =~= seen);
    out
}

/// The name of the first of `files` whose class names hold `k`.
pub open spec fn first_file(files: Seq<(Seq<char>, Seq<Seq<char>>)>, k: Seq<char>) -> Option<
    Seq<char>,
>
    decreases files.len(),
{
    if files.len() == 0 {
        None
    } else {
        match first_file(files.drop_last(), k) {
            Some(n) => Some(n),
            None => if files.last().1.contains(k) {
                Some(files.last().0)
            } else {
                None
            },
        }
    }
}

/// Every class name the files render, each with the first file that
/// writes it.
pub open spec fn rendered_pairs(files: Seq<(Seq<char>, Seq<Seq<char>>)>) -> Set<
    (Seq<char>, Seq<char>),
> {
    Set::new(|e: (Seq<char>, Seq<char>)| first_file(files, e.0) == Some(e.1))
}

/// Every class name the files render.
pub open spec fn rendered_names(files: Seq<(Seq<char>, Seq<Seq<char>>)>) -> Set<Seq<char>> {
    Set::new(|k: Seq<char>| first_file(files, k) is Some)
}

/// Each file as its name and the class names its desktop code writes.
pub open spec fn files_tokens(files: Seq<(String, String)>) -> Seq<(Seq<char>, Seq<Seq<char>>)> {
    files.map_values(|f: (String, String)| (f.0@, class_tokens(desktop_spec(f.1@))))
}

proof fn lemma_first_file_push_token(
    files: Seq<(Seq<char>, Seq<Seq<char>>)>,
    name: Seq<char>,
    toks: Seq<Seq<char>>,
    x: Seq<char>,
    k: Seq<char>,
)
    ensures
        first_file(files.push((name, toks.push(x))), k) == if k == x && first_file(
            files.push((name, toks)),
            x,
        ) is None {
            Some(name)
        } else {
            first_file(files.push((name, toks)), k)
        },
{
    assert(files.push((name, toks.push(x))).drop_last() =~= files);
    assert(files.push((name, toks)).drop_last() =~= files);
    if toks.contains(k) {
        assert(toks.push(x).contains(k)) by {
            let i = choose|i: int| 0 <= i < toks.len() && toks[i] == k;
            assert(toks.push(x)[i] == k);
        }
    }
    if k == x {
        assert(toks.push(x)[toks.len() as int] == x);
    }
    if toks.push(x).contains(k) && k != x {
        let i = choose|i: int| 0 <= i < toks.push(x).len() && toks.push(x)[i] == k;
        assert(toks[i] == k);
    }
}

proof fn lemma_first_file_new_file(files: Seq<(Seq<char>, Seq<Seq<char>>)>, name: Seq<char>, k: Seq<char>)
    ensures
        first_file(files.push((name, Seq::empty())), k) == first_file(files, k),
{
    assert(files.push((name, Seq::<Seq<char>>::empty())).drop_last() =~= files);
}

/// Every class name the desktop can put in the DOM, with the file that
/// writes it first, ascending by name — for files given as (name, source).
///
/// Odd `"`-fields of each `class:` value are its string literals, so both
/// arms of `class: if on { "nav-row on" } else { "nav-row" }` are read, and
/// the state modifiers are not lost to the first branch.
pub fn rendered_classes(files: &Vec<(String, String)>) -> (out: Vec<(String, String)>)
    requires
        forall|q: int| 0 <= q < files@.len() ==> cut_is_clean(#[trigger] files@[q].1@),
    ensures
        ascending(entry_keys(out@)),
        entry_pairs(out@) == rendered_pairs(files_tokens(files@)),
        entry_keys(out@).to_set() == rendered_names(files_tokens(files@)),
{
    let ghost ft = files_tokens(files@);
    let mut out: Vec<(String, String)> = Vec::new();
    let mut f: usize = 0;
    assert(ft.take(0) =~= Seq::<(Seq<char>, Seq<Seq<char>>)>::empty());
    assert(entry_pairs(out@) =~= rendered_pairs(ft.take(0)));
    assert(entry_keys(out@).to_set() =~= rendered_names(ft.take(0)));
    while f < files.len()
        invariant
            ft == files_tokens(files@),
            forall|q: int| 0 <= q < files@.len() ==> cut_is_clean(#[trigger] files@[q].1@),
            f <= files@.len(),
            ascending(entry_keys(out@)),
            entry_pairs(out@) == rendered_pairs(ft.take(f as int)),
            entry_keys(out@).to_set() == rendered_names(ft.take(f as int)),
        decreases files.len() - f,
    {
        let name = &files[f].0;
        let code = desktop_code(name.as_str(), files[f].1.as_str());
        let tokens = classes_written(code.as_str());
        let ghost toks = class_tokens(desktop_spec(files@[f as int].1@));
        let ghost done = ft.take(f as int);
        proof {
            assert forall|k: Seq<char>| #[trigger] first_file(done.push((name@, toks.take(0))), k)
                == first_file(done, k) by {
                assert(toks.take(0) =~= Seq::<Seq<char>>::empty());
                lemma_first_file_new_file(done, name@, k);
            }
            assert(rendered_pairs(done.push((name@, toks.take(0)))) =~= rendered_pairs(done));
            assert(rendered_names(done.push((name@, toks.take(0)))) =~= rendered_names(done));
        }
        let mut t: usize = 0;
        while t < tokens.len()
            invariant
                strings_of(tokens@) == toks,
                t <= tokens@.len(),
                ascending(entry_keys(out@)),
                entry_pairs(out@) == rendered_pairs(done.push((name@, toks.take(t as int)))),
                entry_keys(out@).to_set() == rendered_names(done.push((name@, toks.take(t as int)))),
            decreases tokens.len() - t,
        {
            let x = tokens[t].clone();
            let ghost xs = toks[t as int];
            let ghost before_files = done.push((name@, toks.take(t as int)));
            let ghost after_files = done.push((name@, toks.take(t + 1)));
            let ghost had = entry_keys(out@).contains(xs);
            proof {
                assert(toks.take(t + 1) =~= toks.take(t as int).push(xs));
                assert forall|k: Seq<char>| #[trigger] first_file(after_files, k) == if k == xs
                    && first_file(before_files, xs) is None {
                    Some(name@)
                } else {
                    first_file(before_files, k)
                } by {
                    lemma_first_file_push_token(done, name@, toks.take(t as int), xs, k);
                }
                assert(had == rendered_names(before_files).contains(xs)) by {
                    if had {
                        assert(entry_keys(out@).to_set().contains(xs));
                    }
                }
            }
            insert_entry(&mut out, x, name.clone());
            proof {
                if had {
                    assert(rendered_pairs(after_files) =~= rendered_pairs(before_files));
                    assert(rendered_names(after_files) =~= rendered_names(before_files));
                    assert(rendered_names(before_files).insert(xs) =~= rendered_names(
                        before_files,
                    ));
                } else {
                    assert(rendered_pairs(after_files) =~= rendered_pairs(before_files).insert(
                        (xs, name@),
                    ));
                    assert(rendered_names(after_files) =~= rendered_names(before_files).insert(xs));
                }
            }
            t += 1;
        }
        assert(toks.take(toks.len() as int) =~= toks);
        assert(ft.take(f + 1) =~= done.push((name@, toks)));
        f += 1;
    }
    assert(ft.take(files@.len() as int) =~= ft);
    out
}

} // verus!
