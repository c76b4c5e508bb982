//! What the rows [`between`](crate::diff::between) produces say about the
//! two texts they came from: each side reads back whole, each row is
//! numbered by its place on its side, and the paired middle keeps as many
//! lines as the longest-common-subsequence recurrence allows.

use vstd::prelude::*;

use crate::diff::{
    header_scan, hunk_start_spec, is_hunk_header, kind_of_line, parse_spec, parse_state, parse_step,
    between_script, between_spec, edits_of, gaps_from, head_from, head_len, is_change, lcs,
    lemma_run_end_bounds, mid_new, mid_old, near_change, number_rows, numbered, pairable, run_end,
    tail_from, tail_len, walk, Edit, Gap, LineKind, LineView, CONTEXT,
};
use crate::text::lines;

verus! {

/// The kinds and texts of `rows`, without their numbers.
pub open spec fn edits_in(rows: Seq<LineView>) -> Seq<Edit> {
    rows.map_values(|r: LineView| Edit { kind: r.kind, text: r.text })
}

/// The texts of the rows of `s` that are not of kind `skip`, in order.
pub open spec fn side_of(s: Seq<Edit>, skip: LineKind) -> Seq<Seq<char>>
    decreases s.len(),
{
    if s.len() == 0 {
        Seq::empty()
    } else if s.last().kind == skip {
        side_of(s.drop_last(), skip)
    } else {
        side_of(s.drop_last(), skip).push(s.last().text)
    }
}

/// The old side of some rows: every row but the additions.
pub open spec fn old_lines_of(rows: Seq<LineView>) -> Seq<Seq<char>> {
    side_of(edits_in(rows), LineKind::Add)
}

/// The new side of some rows: every row but the deletions.
pub open spec fn new_lines_of(rows: Seq<LineView>) -> Seq<Seq<char>> {
    side_of(edits_in(rows), LineKind::Del)
}

/// How many rows of `s` are of kind `kind`.
pub open spec fn count_of(s: Seq<Edit>, kind: LineKind) -> nat
    decreases s.len(),
{
    if s.len() == 0 {
        0
    } else if s.last().kind == kind {
        count_of(s.drop_last(), kind) + 1
    } else {
        count_of(s.drop_last(), kind)
    }
}

proof fn lemma_number_rows_shape(s: Seq<Edit>)
    ensures
        number_rows(s).0.len() == s.len(),
        forall|k: int|
            0 <= k < s.len() ==> (#[trigger] number_rows(s).0[k]).kind == s[k].kind
                && number_rows(s).0[k].text == s[k].text,
    decreases s.len(),
{
    if s.len() > 0 {
        lemma_number_rows_shape(s.drop_last());
    }
}

proof fn lemma_edits_in_number_rows(s: Seq<Edit>)
    ensures
        edits_in(number_rows(s).0) == s,
{
    lemma_number_rows_shape(s);
    assert(edits_in(number_rows(s).0) =~= s);
}

proof fn lemma_side_of_add(x: Seq<Edit>, y: Seq<Edit>, skip: LineKind)
    ensures
        side_of(x + y, skip) == side_of(x, skip) + side_of(y, skip),
    decreases y.len(),
{
    if y.len() == 0 {
        assert(x + y =~= x);
        assert(side_of(x, skip) + Seq::<Seq<char>>::empty() =~= side_of(x, skip));
    } else {
        assert((x + y).drop_last() =~= x + y.drop_last());
        lemma_side_of_add(x, y.drop_last(), skip);
        if y.last().kind != skip {
            assert(side_of(x, skip) + side_of(y.drop_last(), skip).push(y.last().text) =~= (
            side_of(x, skip) + side_of(y.drop_last(), skip)).push(y.last().text));
        }
    }
}

proof fn lemma_count_of_add(x: Seq<Edit>, y: Seq<Edit>, kind: LineKind)
    ensures
        count_of(x + y, kind) == count_of(x, kind) + count_of(y, kind),
    decreases y.len(),
{
    if y.len() == 0 {
        assert(x + y =~= x);
    } else {
        assert((x + y).drop_last() =~= x + y.drop_last());
        lemma_count_of_add(x, y.drop_last(), kind);
    }
}

proof fn lemma_side_of_edits(kind: LineKind, ls: Seq<Seq<char>>, skip: LineKind)
    ensures
        side_of(edits_of(kind, ls), skip) == if kind == skip {
            Seq::<Seq<char>>::empty()
        } else {
            ls
        },
        count_of(edits_of(kind, ls), skip) == if kind == skip {
            ls.len()
        } else {
            0
        },
    decreases ls.len(),
{
    if ls.len() > 0 {
        assert(edits_of(kind, ls).drop_last() =~= edits_of(kind, ls.drop_last()));
        lemma_side_of_edits(kind, ls.drop_last(), skip);
        assert(ls.drop_last().push(ls.last()) =~= ls);
    } else {
        assert(edits_of(kind, ls) =~= Seq::<Edit>::empty());
    }
}

proof fn lemma_single(e: Edit, skip: LineKind)
    ensures
        side_of(seq![e], skip) == if e.kind == skip {
            Seq::<Seq<char>>::empty()
        } else {
            seq![e.text]
        },
        count_of(seq![e], skip) == if e.kind == skip {
            1nat
        } else {
            0
        },
{
    let s1 = seq![e];
    assert(s1.len() == 1);
    assert(s1.last() == e);
    assert(s1.drop_last() =~= Seq::<Edit>::empty());
    assert(side_of(s1.drop_last(), skip) =~= Seq::<Seq<char>>::empty());
    assert(count_of(s1.drop_last(), skip) == 0);
    assert(Seq::<Seq<char>>::empty().push(e.text) =~= seq![e.text]);
}

proof fn lemma_walk_sides(a: Seq<Seq<char>>, b: Seq<Seq<char>>, i: nat, j: nat)
    requires
        i <= a.len(),
        j <= b.len(),
    ensures
        side_of(walk(a, b, i, j), LineKind::Add) == a.skip(i as int),
        side_of(walk(a, b, i, j), LineKind::Del) == b.skip(j as int),
        count_of(walk(a, b, i, j), LineKind::Context) == lcs(a, b, i, j),
    decreases a.len() + b.len() - i - j,
{
    if i >= a.len() {
        lemma_side_of_edits(LineKind::Add, b.skip(j as int), LineKind::Add);
        lemma_side_of_edits(LineKind::Add, b.skip(j as int), LineKind::Del);
        lemma_side_of_edits(LineKind::Add, b.skip(j as int), LineKind::Context);
        assert(a.skip(i as int) =~= Seq::<Seq<char>>::empty());
    } else if j >= b.len() {
        lemma_side_of_edits(LineKind::Del, a.skip(i as int), LineKind::Add);
        lemma_side_of_edits(LineKind::Del, a.skip(i as int), LineKind::Del);
        lemma_side_of_edits(LineKind::Del, a.skip(i as int), LineKind::Context);
        assert(b.skip(j as int) =~= Seq::<Seq<char>>::empty());
    } else {
        let (e, i2, j2) = if a[i as int] == b[j as int] {
            (Edit { kind: LineKind::Context, text: a[i as int] }, i + 1, j + 1)
        } else if lcs(a, b, i + 1, j) >= lcs(a, b, i, j + 1) {
            (Edit { kind: LineKind::Del, text: a[i as int] }, i + 1, j)
        } else {
            (Edit { kind: LineKind::Add, text: b[j as int] }, i, j + 1)
        };
        let rest = walk(a, b, i2 as nat, j2 as nat);
        assert(walk(a, b, i, j) == seq![e] + rest);
        lemma_walk_sides(a, b, i2 as nat, j2 as nat);
        lemma_side_of_add(seq![e], rest, LineKind::Add);
        lemma_side_of_add(seq![e], rest, LineKind::Del);
        lemma_count_of_add(seq![e], rest, LineKind::Context);
        lemma_single(e, LineKind::Add);
        lemma_single(e, LineKind::Del);
        lemma_single(e, LineKind::Context);
        if i2 == i + 1 {
            assert(seq![a[i as int]] + a.skip((i + 1) as int) =~= a.skip(i as int));
        } else {
            assert(Seq::<Seq<char>>::empty() + a.skip(i as int) =~= a.skip(i as int));
        }
        if j2 == j + 1 {
            assert(seq![b[j as int]] + b.skip((j + 1) as int) =~= b.skip(j as int));
        } else {
            assert(Seq::<Seq<char>>::empty() + b.skip(j as int) =~= b.skip(j as int));
        }
    }
}

proof fn lemma_head_agrees(a: Seq<Seq<char>>, b: Seq<Seq<char>>, k: nat)
    requires
        k <= a.len(),
        k <= b.len(),
    ensures
        head_from(a, b, k) <= a.len(),
        head_from(a, b, k) <= b.len(),
        forall|q: int| k <= q < head_from(a, b, k) ==> a[q] == b[q],
    decreases a.len() - k,
{
    if k < a.len() && k < b.len() && a[k as int] == b[k as int] {
        lemma_head_agrees(a, b, k + 1);
    }
}

/// Line `q` from the end of `a` is line `q` from the end of `b`.
pub open spec fn ends_match(a: Seq<Seq<char>>, b: Seq<Seq<char>>, q: int) -> bool {
    a[a.len() - 1 - q] == b[b.len() - 1 - q]
}

proof fn lemma_tail_agrees(a: Seq<Seq<char>>, b: Seq<Seq<char>>, h: nat, t: nat)
    requires
        h + t <= a.len(),
        h + t <= b.len(),
    ensures
        h + tail_from(a, b, h, t) <= a.len(),
        h + tail_from(a, b, h, t) <= b.len(),
        forall|q: int| t <= q < tail_from(a, b, h, t) ==> #[trigger] ends_match(a, b, q),
    decreases a.len() - h - t,
{
    if h + t < a.len() && h + t < b.len() && a[a.len() - 1 - t] == b[b.len() - 1 - t] {
        lemma_tail_agrees(a, b, h, t + 1);
    }
}

/// The pieces `between_script` is made of, and what each side of each
/// piece reads.
proof fn lemma_script_sides(a: Seq<Seq<char>>, b: Seq<Seq<char>>)
    ensures
        side_of(between_script(a, b), LineKind::Add) == a,
        side_of(between_script(a, b), LineKind::Del) == b,
        count_of(between_script(a, b), LineKind::Context) == head_len(a, b) + tail_len(a, b) + (
        if pairable(mid_old(a, b), mid_new(a, b)) {
            lcs(mid_old(a, b), mid_new(a, b), 0, 0)
        } else {
            0
        }),
{
    let h = head_len(a, b);
    let t = tail_len(a, b);
    lemma_head_agrees(a, b, 0);
    lemma_tail_agrees(a, b, h, 0);
    let ma = mid_old(a, b);
    let mb = mid_new(a, b);
    let pre = edits_of(LineKind::Context, a.take(h as int));
    let post = edits_of(LineKind::Context, a.skip(a.len() - t));
    let mid = if pairable(ma, mb) {
        walk(ma, mb, 0, 0)
    } else {
        edits_of(LineKind::Del, ma) + edits_of(LineKind::Add, mb)
    };
    assert(between_script(a, b) == pre + mid + post);
    assert(a.take(h as int) =~= b.take(h as int));
    let sa = a.skip(a.len() - t);
    let sb = b.skip(b.len() - t);
    assert forall|p: int| 0 <= p < t implies #[trigger] sa[p] == sb[p] by {
        assert(ends_match(a, b, t - 1 - p));
    }
    assert(a.skip(a.len() - t) =~= b.skip(b.len() - t));
    lemma_side_of_edits(LineKind::Context, a.take(h as int), LineKind::Add);
    lemma_side_of_edits(LineKind::Context, a.take(h as int), LineKind::Del);
    lemma_side_of_edits(LineKind::Context, a.take(h as int), LineKind::Context);
    lemma_side_of_edits(LineKind::Context, a.skip(a.len() - t), LineKind::Add);
    lemma_side_of_edits(LineKind::Context, a.skip(a.len() - t), LineKind::Del);
    lemma_side_of_edits(LineKind::Context, a.skip(a.len() - t), LineKind::Context);
    if pairable(ma, mb) {
        lemma_walk_sides(ma, mb, 0, 0);
        assert(ma.skip(0) =~= ma);
        assert(mb.skip(0) =~= mb);
    } else {
        let d = edits_of(LineKind::Del, ma);
        let g = edits_of(LineKind::Add, mb);
        lemma_side_of_add(d, g, LineKind::Add);
        lemma_side_of_add(d, g, LineKind::Del);
        lemma_count_of_add(d, g, LineKind::Context);
        lemma_side_of_edits(LineKind::Del, ma, LineKind::Add);
        lemma_side_of_edits(LineKind::Del, ma, LineKind::Del);
        lemma_side_of_edits(LineKind::Del, ma, LineKind::Context);
        lemma_side_of_edits(LineKind::Add, mb, LineKind::Add);
        lemma_side_of_edits(LineKind::Add, mb, LineKind::Del);
        lemma_side_of_edits(LineKind::Add, mb, LineKind::Context);
        assert(ma + Seq::<Seq<char>>::empty() =~= ma);
        assert(Seq::<Seq<char>>::empty() + mb =~= mb);
    }
    lemma_side_of_add(pre, mid, LineKind::Add);
    lemma_side_of_add(pre + mid, post, LineKind::Add);
    lemma_side_of_add(pre, mid, LineKind::Del);
    lemma_side_of_add(pre + mid, post, LineKind::Del);
    lemma_count_of_add(pre, mid, LineKind::Context);
    lemma_count_of_add(pre + mid, post, LineKind::Context);
    assert(a.take(h as int) + ma + a.skip(a.len() - t) =~= a);
    assert(b.take(h as int) + mb + b.skip(b.len() - t) =~= b);
}

/// Reading the rows of an edit by side gives back both texts: the rows that
/// are not additions are the old text's lines, in order, and the rows that
/// are not deletions are the new text's lines, in order.
pub proof fn law_between_reads_back_both_texts(old: Seq<char>, new: Seq<char>)
    ensures
        old_lines_of(between_spec(old, new)) == lines(old),
        new_lines_of(between_spec(old, new)) == lines(new),
{
    let s = between_script(lines(old), lines(new));
    lemma_edits_in_number_rows(s);
    lemma_script_sides(lines(old), lines(new));
}

/// The rows pair every line of the shared head and tail, and, when the
/// middles are small enough to pair, as many lines of the middles as the
/// longest-common-subsequence recurrence gives; past the budget the
/// middles share no row.
pub proof fn law_between_pairs_a_longest_common_run(old: Seq<char>, new: Seq<char>)
    ensures
        count_of(edits_in(between_spec(old, new)), LineKind::Context) == head_len(
            lines(old),
            lines(new),
        ) + tail_len(lines(old), lines(new)) + (if pairable(
            mid_old(lines(old), lines(new)),
            mid_new(lines(old), lines(new)),
        ) {
            lcs(mid_old(lines(old), lines(new)), mid_new(lines(old), lines(new)), 0, 0)
        } else {
            0
        }),
{
    let s = between_script(lines(old), lines(new));
    lemma_edits_in_number_rows(s);
    lemma_script_sides(lines(old), lines(new));
}

proof fn lemma_lcs_last_of_a(a: Seq<Seq<char>>, b: Seq<Seq<char>>, i: nat, j: nat)
    requires
        i + 1 == a.len(),
        j < b.len(),
        a.last() == b.last(),
    ensures
        lcs(a, b, i, j) == 1,
    decreases b.len() - j,
{
    assert(lcs(a, b, i + 1, j) == 0);
    assert(lcs(a, b, i + 1, j + 1) == 0);
    if a[i as int] != b[j as int] {
        assert(j + 1 < b.len());
        lemma_lcs_last_of_a(a, b, i, j + 1);
    }
}

proof fn lemma_lcs_last_of_b(a: Seq<Seq<char>>, b: Seq<Seq<char>>, i: nat, j: nat)
    requires
        i < a.len(),
        j + 1 == b.len(),
        a.last() == b.last(),
    ensures
        lcs(a, b, i, j) == 1,
    decreases a.len() - i,
{
    assert(lcs(a, b, i, j + 1) == 0);
    assert(lcs(a, b, i + 1, j + 1) == 0);
    if a[i as int] != b[j as int] {
        assert(i + 1 < a.len());
        lemma_lcs_last_of_b(a, b, i + 1, j);
    }
}

/// Two texts that end alike have one more line in common than the same
/// texts without their last lines.
proof fn lemma_lcs_drop_last(a: Seq<Seq<char>>, b: Seq<Seq<char>>, i: nat, j: nat)
    requires
        i < a.len(),
        j < b.len(),
        a.last() == b.last(),
    ensures
        lcs(a, b, i, j) == 1 + lcs(a.drop_last(), b.drop_last(), i, j),
    decreases a.len() + b.len() - i - j,
{
    let (a2, b2) = (a.drop_last(), b.drop_last());
    if i + 1 == a.len() {
        lemma_lcs_last_of_a(a, b, i, j);
    } else if j + 1 == b.len() {
        lemma_lcs_last_of_b(a, b, i, j);
    } else {
        assert(a2[i as int] == a[i as int] && b2[j as int] == b[j as int]);
        if a[i as int] == b[j as int] {
            lemma_lcs_drop_last(a, b, i + 1, j + 1);
        } else {
            lemma_lcs_drop_last(a, b, i + 1, j);
            lemma_lcs_drop_last(a, b, i, j + 1);
        }
    }
}

/// Reading from `p` on is reading the texts with their first `p` lines gone.
proof fn lemma_lcs_shift(a: Seq<Seq<char>>, b: Seq<Seq<char>>, i: nat, j: nat, p: nat)
    requires
        p <= i <= a.len(),
        p <= j <= b.len(),
    ensures
        lcs(a, b, i, j) == lcs(a.skip(p as int), b.skip(p as int), (i - p) as nat, (j - p) as nat),
    decreases a.len() + b.len() - i - j,
{
    let (a2, b2) = (a.skip(p as int), b.skip(p as int));
    if i < a.len() && j < b.len() {
        assert(a2[i - p] == a[i as int] && b2[j - p] == b[j as int]);
        lemma_lcs_shift(a, b, i + 1, j + 1, p);
        lemma_lcs_shift(a, b, i + 1, j, p);
        lemma_lcs_shift(a, b, i, j + 1, p);
        assert((i + 1 - p) as nat == (i - p) as nat + 1);
        assert((j + 1 - p) as nat == (j - p) as nat + 1);
    }
}

/// Dropping `t` matching last lines takes `t` off the longest common run.
proof fn lemma_lcs_drop_tail(a: Seq<Seq<char>>, b: Seq<Seq<char>>, h: nat, t: nat)
    requires
        h + t <= a.len(),
        h + t <= b.len(),
        forall|q: int| 0 <= q < t ==> #[trigger] ends_match(a, b, q),
    ensures
        lcs(a, b, h, h) == t + lcs(a.take(a.len() - t), b.take(b.len() - t), h, h),
    decreases t,
{
    if t == 0 {
        assert(a.take(a.len() as int) =~= a);
        assert(b.take(b.len() as int) =~= b);
    } else {
        let t1 = (t - 1) as nat;
        lemma_lcs_drop_tail(a, b, h, t1);
        let (a1, b1) = (a.take(a.len() - t1), b.take(b.len() - t1));
        assert(ends_match(a, b, t1 as int));
        assert(a1.last() == a[a.len() - 1 - t1]);
        assert(b1.last() == b[b.len() - 1 - t1]);
        lemma_lcs_drop_last(a1, b1, h, h);
        assert(a1.drop_last() =~= a.take(a.len() - t));
        assert(b1.drop_last() =~= b.take(b.len() - t));
    }
}

/// A matching head adds one line each to the longest common run.
proof fn lemma_lcs_head(a: Seq<Seq<char>>, b: Seq<Seq<char>>, k: nat, h: nat)
    requires
        k <= h,
        h <= a.len(),
        h <= b.len(),
        forall|q: int| k <= q < h ==> a[q] == b[q],
    ensures
        lcs(a, b, k, k) == (h - k) + lcs(a, b, h, h),
    decreases h - k,
{
    if k < h {
        assert(a[k as int] == b[k as int]);
        lemma_lcs_head(a, b, k + 1, h);
    }
}

/// When the middles are small enough to pair, the context rows of an edit
/// are exactly as many as the lines of a longest common subsequence of the
/// two texts.
pub proof fn law_between_keeps_a_longest_common_subsequence(old: Seq<char>, new: Seq<char>)
    requires
        pairable(mid_old(lines(old), lines(new)), mid_new(lines(old), lines(new))),
    ensures
        count_of(edits_in(between_spec(old, new)), LineKind::Context) == lcs(lines(old), lines(new), 0, 0),
{
    let (a, b) = (lines(old), lines(new));
    let h = head_len(a, b);
    let t = tail_len(a, b);
    law_between_pairs_a_longest_common_run(old, new);
    lemma_head_agrees(a, b, 0);
    crate::diff::lemma_trim_bounds(a, b);
    lemma_tail_agrees(a, b, h, 0);
    lemma_lcs_head(a, b, 0, h);
    lemma_lcs_drop_tail(a, b, h, t);
    let (a1, b1) = (a.take(a.len() - t), b.take(b.len() - t));
    lemma_lcs_shift(a1, b1, h, h, h);
    assert(a1.skip(h as int) =~= mid_old(a, b));
    assert(b1.skip(h as int) =~= mid_new(a, b));
}

proof fn lemma_counters(s: Seq<Edit>)
    ensures
        number_rows(s).1 == side_of(s, LineKind::Add).len(),
        number_rows(s).2 == side_of(s, LineKind::Del).len(),
    decreases s.len(),
{
    if s.len() > 0 {
        lemma_counters(s.drop_last());
    }
}

proof fn lemma_side_len_prefix(s: Seq<Edit>, k: int, skip: LineKind)
    requires
        0 <= k <= s.len(),
    ensures
        side_of(s.take(k), skip).len() <= side_of(s, skip).len(),
    decreases s.len() - k,
{
    if k < s.len() {
        lemma_side_len_prefix(s, k + 1, skip);
        assert(s.take(k + 1).drop_last() =~= s.take(k));
    } else {
        assert(s.take(k) =~= s);
    }
}

proof fn lemma_numbers(s: Seq<Edit>)
    requires
        side_of(s, LineKind::Add).len() <= 0xffff_ffff,
        side_of(s, LineKind::Del).len() <= 0xffff_ffff,
    ensures
        number_rows(s).0.len() == s.len(),
        forall|k: int|
            0 <= k < s.len() ==> (#[trigger] number_rows(s).0[k]).old_no == (if s[k].kind
                is Add {
                0
            } else {
                side_of(s.take(k + 1), LineKind::Add).len()
            }) && number_rows(s).0[k].new_no == (if s[k].kind is Del {
                0
            } else {
                side_of(s.take(k + 1), LineKind::Del).len()
            }),
    decreases s.len(),
{
    lemma_number_rows_shape(s);
    if s.len() > 0 {
        let p = s.drop_last();
        lemma_side_len_prefix(s, s.len() - 1, LineKind::Add);
        lemma_side_len_prefix(s, s.len() - 1, LineKind::Del);
        assert(s.take(s.len() - 1) =~= p);
        lemma_numbers(p);
        lemma_counters(p);
        assert forall|k: int| 0 <= k < s.len() implies (#[trigger] number_rows(s).0[k]).old_no
            == (if s[k].kind is Add {
            0
        } else {
            side_of(s.take(k + 1), LineKind::Add).len()
        }) && number_rows(s).0[k].new_no == (if s[k].kind is Del {
            0
        } else {
            side_of(s.take(k + 1), LineKind::Del).len()
        }) by {
            if k < s.len() - 1 {
                assert(s.take(k + 1) =~= p.take(k + 1));
                assert(number_rows(s).0[k] == number_rows(p).0[k]);
            } else {
                assert(s.take(k + 1) =~= s);
                assert(s.drop_last() == p);
            }
        }
    }
}

/// Each row is numbered like a patch: a row on the old side carries its
/// place among the old side's rows, counting from one, and an addition
/// carries no old number; the same holds of the new side, with deletions
/// carrying no new number.
pub proof fn law_between_numbers_each_side(old: Seq<char>, new: Seq<char>)
    requires
        lines(old).len() <= 0xffff_ffff,
        lines(new).len() <= 0xffff_ffff,
    ensures
        forall|k: int|
            0 <= k < between_spec(old, new).len() ==> (#[trigger] between_spec(old, new)[k]).old_no
                == (if between_spec(old, new)[k].kind is Add {
                0
            } else {
                old_lines_of(between_spec(old, new).take(k + 1)).len()
            }) && between_spec(old, new)[k].new_no == (if between_spec(old, new)[k].kind is Del {
                0
            } else {
                new_lines_of(between_spec(old, new).take(k + 1)).len()
            }),
{
    let s = between_script(lines(old), lines(new));
    let rows = between_spec(old, new);
    lemma_script_sides(lines(old), lines(new));
    lemma_numbers(s);
    assert forall|k: int| 0 <= k < rows.len() implies #[trigger] edits_in(rows.take(k + 1)) == s.take(
        k + 1,
    ) by {
        lemma_number_rows_shape(s);
        assert(edits_in(rows.take(k + 1)) =~= s.take(k + 1));
    }
}

/// An edit that changed nothing is still the whole file, every row context.
pub proof fn law_between_same_text_is_all_context(text: Seq<char>)
    ensures
        between_spec(text, text).len() == lines(text).len(),
        forall|k: int|
            0 <= k < between_spec(text, text).len() ==> (#[trigger] between_spec(
                text,
                text,
            )[k]).kind is Context,
{
    let a = lines(text);
    lemma_head_same(a, 0);
    assert(tail_len(a, a) == 0);
    assert(mid_old(a, a) =~= Seq::<Seq<char>>::empty());
    assert(mid_new(a, a) =~= Seq::<Seq<char>>::empty());
    assert(walk(mid_old(a, a), mid_new(a, a), 0, 0) =~= Seq::<Edit>::empty());
    assert(a.take(a.len() as int) =~= a);
    assert(a.skip(a.len() as int) =~= Seq::<Seq<char>>::empty());
    assert(edits_of(LineKind::Context, Seq::<Seq<char>>::empty()) =~= Seq::<Edit>::empty());
    assert(between_script(a, a) =~= edits_of(LineKind::Context, a));
    lemma_number_rows_shape(between_script(a, a));
}

proof fn lemma_head_same(a: Seq<Seq<char>>, k: nat)
    requires
        k <= a.len(),
    ensures
        head_from(a, a, k) == a.len(),
    decreases a.len() - k,
{
    if k < a.len() {
        lemma_head_same(a, k + 1);
    }
}

/// A gap hides only what is worth hiding: lines `start..start + len` inside
/// the rows, more than `2 * CONTEXT` of them, none within `CONTEXT` of a
/// change.
pub open spec fn gap_is_far_context(rows: Seq<LineView>, g: Gap) -> bool {
    &&& g.start + g.len <= rows.len()
    &&& g.len > 2 * CONTEXT
    &&& forall|i: int| g.start <= i < g.start + g.len ==> !near_change(rows, i)
}

/// Every gap of `gs` hides far context and starts at `lo` or later, and
/// the gaps come in order without touching.
#[verifier::opaque]
pub open spec fn gaps_ok(rows: Seq<LineView>, gs: Seq<Gap>, lo: int) -> bool {
    &&& forall|k: int|
        0 <= k < gs.len() ==> gap_is_far_context(rows, #[trigger] gs[k]) && gs[k].start >= lo
    &&& forall|k: int| 0 <= k < gs.len() - 1 ==> #[trigger] gs[k].start + gs[k].len < gs[k + 1].start
}

proof fn lemma_gaps_ok_weaken(rows: Seq<LineView>, gs: Seq<Gap>, lo: int, lower: int)
    requires
        gaps_ok(rows, gs, lo),
        lower <= lo,
    ensures
        gaps_ok(rows, gs, lower),
{
    reveal(gaps_ok);
}

proof fn lemma_gaps_ok_cons(rows: Seq<LineView>, g: Gap, rest: Seq<Gap>, lo: int)
    requires
        gap_is_far_context(rows, g),
        g.start >= lo,
        gaps_ok(rows, rest, g.start + g.len + 1),
    ensures
        gaps_ok(rows, seq![g] + rest, lo),
{
    reveal(gaps_ok);
    let all = seq![g] + rest;
    assert forall|k: int| 0 <= k < all.len() implies gap_is_far_context(rows, #[trigger] all[k])
        && all[k].start >= lo by {
        if k > 0 {
            assert(all[k] == rest[k - 1]);
        }
    }
    assert forall|k: int| 0 <= k < all.len() - 1 implies #[trigger] all[k].start + all[k].len
        < all[k + 1].start by {
        assert(all[k + 1] == rest[k]);
        if k > 0 {
            assert(all[k] == rest[k - 1]);
        }
    }
}

proof fn lemma_gaps_from(rows: Seq<LineView>, i: int)
    requires
        0 <= i,
        rows.len() <= usize::MAX,
    ensures
        gaps_ok(rows, gaps_from(rows, i), i),
    decreases rows.len() - i,
{
    if i < rows.len() {
        if near_change(rows, i) {
            lemma_gaps_from(rows, i + 1);
            assert(gaps_from(rows, i) == gaps_from(rows, i + 1));
            lemma_gaps_ok_weaken(rows, gaps_from(rows, i + 1), i + 1, i);
        } else {
            lemma_run_end_bounds(rows, i);
            let e = run_end(rows, i);
            let rest = gaps_from(rows, e);
            if e < rows.len() {
                lemma_gaps_from_skip_near(rows, e);
                lemma_gaps_from(rows, e + 1);
            } else {
                assert(rest =~= Seq::<Gap>::empty());
                reveal(gaps_ok);
            }
            assert(gaps_ok(rows, rest, e + 1));
            if e - i > 2 * CONTEXT {
                let g = Gap { start: i as usize, len: (e - i) as usize };
                assert(gaps_from(rows, i) == seq![g] + rest);
                lemma_gaps_ok_cons(rows, g, rest, i);
            } else {
                assert(gaps_from(rows, i) == Seq::<Gap>::empty() + rest);
                assert(Seq::<Gap>::empty() + rest =~= rest);
                lemma_gaps_ok_weaken(rows, rest, e + 1, i);
            }
        }
    } else {
        assert(gaps_from(rows, i) =~= Seq::<Gap>::empty());
        reveal(gaps_ok);
    }
}

/// A gap list that starts at a line near a change starts past it.
proof fn lemma_gaps_from_skip_near(rows: Seq<LineView>, e: int)
    requires
        0 <= e < rows.len(),
        near_change(rows, e),
    ensures
        gaps_from(rows, e) == gaps_from(rows, e + 1),
{
}

/// The bands the viewer collapses hide only runs of unchanged lines that
/// are far from every change and longer than `2 * CONTEXT` — a shorter run
/// is left alone, because the band that would hide it is itself a row —
/// and the bands come in file order without touching each other.
pub proof fn law_gaps_hide_only_long_far_context(rows: Seq<LineView>)
    requires
        rows.len() <= usize::MAX,
    ensures
        forall|k: int|
            0 <= k < gaps_from(rows, 0).len() ==> gap_is_far_context(
                rows,
                #[trigger] gaps_from(rows, 0)[k],
            ),
        forall|k: int|
            0 <= k < gaps_from(rows, 0).len() - 1 ==> #[trigger] gaps_from(rows, 0)[k].start
                + gaps_from(rows, 0)[k].len < gaps_from(rows, 0)[k + 1].start,
        forall|k: int, i: int|
            0 <= k < gaps_from(rows, 0).len() && #[trigger] gaps_from(rows, 0)[k].start <= i
                < gaps_from(rows, 0)[k].start + gaps_from(rows, 0)[k].len ==> !is_change(
                #[trigger] rows[i].kind,
            ),
{
    lemma_gaps_from(rows, 0);
    reveal(gaps_ok);
    assert(gaps_ok(rows, gaps_from(rows, 0), 0));
    assert forall|k: int, i: int|
        0 <= k < gaps_from(rows, 0).len() && #[trigger] gaps_from(rows, 0)[k].start <= i < gaps_from(
            rows,
            0,
        )[k].start + gaps_from(rows, 0)[k].len implies !is_change(#[trigger] rows[i].kind) by {
        assert(gap_is_far_context(rows, gaps_from(rows, 0)[k]));
        assert(!near_change(rows, i));
    }
}

/// What a row says of where it stands: its kind and its two numbers.
pub open spec fn same_place(a: LineView, b: LineView) -> bool {
    a.kind == b.kind && a.old_no == b.old_no && a.new_no == b.new_no
}

proof fn lemma_parse_take_step(ls: Seq<Seq<char>>, k: int)
    requires
        0 <= k < ls.len(),
    ensures
        parse_state(ls.take(k + 1)) == parse_step(parse_state(ls.take(k)), ls[k]),
{
    let t = ls.take(k + 1);
    assert(t.drop_last() =~= ls.take(k));
    assert(parse_state(t) == parse_step(parse_state(t.drop_last()), t.last()));
}

/// Reading on never moves a row already read: later lines only add rows
/// after it, or mark the last one as missing its newline.
proof fn lemma_rows_stay(ls: Seq<Seq<char>>, k: int, m: int)
    requires
        0 <= k <= m <= ls.len(),
    ensures
        parse_state(ls.take(m)).out.len() >= parse_state(ls.take(k)).out.len(),
        forall|j: int|
            0 <= j < parse_state(ls.take(k)).out.len() ==> same_place(
                #[trigger] parse_state(ls.take(m)).out[j],
                parse_state(ls.take(k)).out[j],
            ),
    decreases m - k,
{
    if m > k {
        lemma_rows_stay(ls, k, m - 1);
        lemma_parse_take_step(ls, m - 1);
    }
}

proof fn lemma_header_scan_bound(ws: Seq<Seq<char>>)
    ensures
        header_scan(ws).0 matches Some(a) ==> a <= 0xffff_ffff,
        header_scan(ws).1 matches Some(c) ==> c <= 0xffff_ffff,
    decreases ws.len(),
{
    if ws.len() > 0 {
        lemma_header_scan_bound(ws.drop_last());
    }
}

/// Every hunk header restarts the numbering, whatever hunks came before
/// it: the row read from the line after a `@@ -a,b +c,d @@` header is line
/// `a` on the old side (unless it is an addition) and line `c` on the new
/// side (unless it is a deletion) — line 1 for a side that starts at 0.
pub proof fn law_a_hunk_header_restarts_the_numbers(patch: Seq<char>, h: int, o: nat, n: nat)
    requires
        0 <= h,
        h + 1 < lines(patch).len(),
        is_hunk_header(lines(patch)[h]),
        hunk_start_spec(lines(patch)[h].skip(2)) == Some((o, n)),
        !is_hunk_header(lines(patch)[h + 1]),
        !(lines(patch)[h + 1].len() > 0 && lines(patch)[h + 1][0] == '\\'),
    ensures
        ({
            let i = parse_state(lines(patch).take(h + 1)).out.len();
            let r = parse_spec(patch)[i as int];
            &&& i < parse_spec(patch).len()
            &&& r.kind == kind_of_line(lines(patch)[h + 1])
            &&& r.kind != LineKind::Add ==> r.old_no == o + 1
            &&& r.kind != LineKind::Del ==> r.new_no == n + 1
        }),
{
    let ls = lines(patch);
    lemma_header_scan_bound(crate::text::words(ls[h].skip(2)));
    lemma_parse_take_step(ls, h);
    lemma_parse_take_step(ls, h + 1);
    let before = parse_state(ls.take(h + 1));
    assert(before.in_hunk && before.old_no == o && before.new_no == n);
    let after = parse_state(ls.take(h + 2));
    assert(after.out.len() == before.out.len() + 1);
    lemma_rows_stay(ls, h + 2, ls.len() as int);
    assert(ls.take(ls.len() as int) =~= ls);
    assert(same_place(parse_state(ls).out[before.out.len() as int], after.out[before.out.len() as int]));
}

} // verus!
