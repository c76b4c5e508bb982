//! Reading a stylesheet: its text with the comments taken out.
//!
//! A brace scan over a sheet has to strip comments first: a comment can
//! quote a rule, `}` and all, and a banner comment naming the classes below
//! it would otherwise read as a rule of its own.

use vstd::prelude::*;

use crate::text::{chars_of, is_ascii_alnum, is_whitespace, is_ws, slice_chars, string_from, trim_chars, trim_ws};

verus! {

/// The index of the `*` of the first `*/` at or after `j`.
pub open spec fn close_of(s: Seq<char>, j: int) -> Option<int>
    decreases s.len() - j,
{
    if j < 0 || j + 1 >= s.len() {
        None
    } else if s[j] == '*' && s[j + 1] == '/' {
        Some(j)
    } else {
        close_of(s, j + 1)
    }
}

pub proof fn lemma_close_of(s: Seq<char>, j: int)
    requires
        0 <= j,
    ensures
        close_of(s, j) matches Some(c) ==> j <= c && c + 1 < s.len(),
    decreases s.len() - j,
{
    if j + 1 < s.len() && !(s[j] == '*' && s[j + 1] == '/') {
        lemma_close_of(s, j + 1);
    }
}

/// `s` from `i` on with every `/* ... */` taken out; a comment that never
/// closes takes the rest of the sheet with it.
pub open spec fn uncommented(s: Seq<char>, i: int) -> Seq<char>
    decreases s.len() - i,
{
    if i < 0 || i >= s.len() {
        Seq::empty()
    } else if i + 1 < s.len() && s[i] == '/' && s[i + 1] == '*' {
        proof {
            lemma_close_of(s, i + 2);
        }
        match close_of(s, i + 2) {
            Some(c) => uncommented(s, c + 2),
            None => Seq::empty(),
        }
    } else {
        seq![s[i]] + uncommented(s, i + 1)
    }
}

/// `css` with every `/* ... */` taken out.
pub fn without_comments(css: &str) -> (out: String)
    ensures
        out@ == uncommented(css@, 0),
{
    let s = chars_of(css);
    let n = s.len();
    let mut out: Vec<char> = Vec::new();
    let mut i: usize = 0;
    while i < n
        invariant
            s@ == css@,
            n == s@.len(),
            i <= n,
            out@ + uncommented(css@, i as int) == uncommented(css@, 0),
        decreases n - i,
    {
        if i + 1 < n && s[i] == '/' && s[i + 1] == '*' {
            proof {
                lemma_close_of(css@, i + 2);
            }
            let mut j = i + 2;
            while j < n - 1 && !(s[j] == '*' && s[j + 1] == '/')
                invariant
                    s@ == css@,
                    n == s@.len(),
                    i + 2 <= j,
                    j <= n,
                    n >= 2,
                    close_of(css@, j as int) == close_of(css@, i + 2),
                decreases n + 1 - j,
            {
                j += 1;
            }
            if j < n - 1 {
                i = j + 2;
            } else {
                assert(close_of(css@, j as int) is None);
                assert(out@ + Seq::<char>::empty() =~= out@);
                assert(uncommented(css@, n as int) =~= Seq::<char>::empty());
                i = n;
            }
        } else {
            let ghost before = out@;
            out.push(s[i]);
            assert(out@ + uncommented(css@, i + 1) =~= before + uncommented(css@, i as int));
            i += 1;
        }
    }
    assert(out@ + Seq::<char>::empty() =~= out@);
    string_from(&out)
}

/// The index of the first `c` in `s`.
pub open spec fn first_index(s: Seq<char>, c: char) -> Option<int>
    decreases s.len(),
{
    if s.len() == 0 {
        None
    } else if s.last() == c {
        match first_index(s.drop_last(), c) {
            Some(i) => Some(i),
            None => Some(s.len() - 1),
        }
    } else {
        first_index(s.drop_last(), c)
    }
}

/// `o` moved on by `d`.
pub open spec fn shifted(o: Option<int>, d: int) -> Option<int> {
    match o {
        Some(k) => Some(k + d),
        None => None,
    }
}

/// A character a CSS property name is made of.
pub open spec fn property_char(c: char) -> bool {
    is_ascii_alnum(c) || c == '-' || c == '_'
}

/// `prop: value` split in two — the property trimmed, the value with its
/// whitespace taken out — or `None` for anything that is not a declaration.
pub open spec fn declaration_spec(decl: Seq<char>) -> Option<(Seq<char>, Seq<char>)> {
    match first_index(decl, ':') {
        None => None,
        Some(i) => {
            let prop = trim_ws(decl.take(i));
            if prop.len() == 0 || !(forall|k: int| 0 <= k < prop.len() ==> property_char(prop[k])) {
                None
            } else {
                Some((prop, decl.skip(i + 1).filter(|c: char| !is_ws(c))))
            }
        },
    }
}

/// `prop: value` split in two, or `None` for anything that is not a
/// declaration — a selector fragment, a media condition, trailing space.
///
/// The property test is deliberately narrow: a CSS property is ASCII
/// letters, digits, `-` and `_` and nothing else, so a stray `@media
/// (max-width: 900px)` or a `url(data:…)` cannot be mistaken for one. The
/// value is compared after whitespace, so `var( --x )` and `var(--x)` are
/// one value.
pub fn split_declaration(decl: &str) -> (r: Option<(String, String)>)
    ensures
        match (r, declaration_spec(decl@)) {
            (Some((p, v)), Some((sp, sv))) => p@ == sp && v@ == sv,
            (None, None) => true,
            _ => false,
        },
{
    let cs = chars_of(decl);
    let n = cs.len();
    let mut i: usize = 0;
    assert(decl@.skip(0) =~= decl@);
    while i < n && cs[i] != ':'
        invariant
            cs@ == decl@,
            n == cs@.len(),
            i <= n,
            first_index(decl@, ':') == shifted(first_index(decl@.skip(i as int), ':'), i as int),
        decreases n - i,
    {
        proof {
            lemma_first_index_step(decl@.skip(i as int), ':');
            assert(decl@.skip(i as int).drop_first() =~= decl@.skip(i + 1));
        }
        i += 1;
    }
    if i == n {
        assert(decl@.skip(n as int) =~= Seq::<char>::empty());
        return None;
    }
    proof {
        lemma_first_index_step(decl@.skip(i as int), ':');
        assert(decl@.skip(i as int)[0] == ':');
    }
    assert(first_index(decl@, ':') == Some(i as int));
    let head = slice_chars(&cs, 0, i);
    assert(head@ =~= decl@.take(i as int));
    let prop = trim_chars(&head);
    if prop.len() == 0 {
        return None;
    }
    let mut k: usize = 0;
    while k < prop.len()
        invariant
            k <= prop@.len(),
            first_index(decl@, ':') == Some(i as int),
            prop@ == trim_ws(decl@.take(i as int)),
            forall|q: int| 0 <= q < k ==> property_char(prop@[q]),
        decreases prop.len() - k,
    {
        let c = prop[k];
        if !(('a' <= c && c <= 'z') || ('A' <= c && c <= 'Z') || ('0' <= c && c <= '9') || c == '-'
            || c == '_') {
            assert(!property_char(prop@[k as int]));
            assert(!(forall|q: int| 0 <= q < prop@.len() ==> property_char(prop@[q])));
            return None;
        }
        k += 1;
    }
    let ghost rest = decl@.skip(i + 1);
    let ghost keep = |c: char| !is_ws(c);
    let mut value: Vec<char> = Vec::new();
    let mut j: usize = i + 1;
    assert(rest.take(0).filter(keep) =~= Seq::<char>::empty());
    while j < n
        invariant
            cs@ == decl@,
            n == cs@.len(),
            i + 1 <= j <= n,
            rest == decl@.skip(i + 1),
            keep == (|c: char| !is_ws(c)),
            value@ == rest.take(j - i - 1).filter(keep),
        decreases n - j,
    {
        proof {
            crate::seqs::lemma_filter_step(rest, keep, j - i - 1);
        }
        if !is_whitespace(cs[j]) {
            value.push(cs[j]);
        }
        j += 1;
    }
    assert(rest.take(n - i - 1) =~= rest);
    Some((string_from(&prop), string_from(&value)))
}

/// Looking one character further: the first `c` of `s` is at its start, or
/// one past the first `c` of the rest.
pub proof fn lemma_first_index_step(s: Seq<char>, c: char)
    requires
        s.len() > 0,
    ensures
        first_index(s, c) == if s[0] == c {
            Some(0int)
        } else {
            shifted(first_index(s.drop_first(), c), 1)
        },
    decreases s.len(),
{
    if s.len() == 1 {
        assert(s.drop_last() =~= Seq::<char>::empty());
        assert(s.drop_first() =~= Seq::<char>::empty());
    } else {
        lemma_first_index_step(s.drop_last(), c);
        assert(s.drop_last().drop_first() =~= s.drop_first().drop_last());
        assert(s.drop_first().last() == s.last());
    }
}

} // verus!
