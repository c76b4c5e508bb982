//! Sets of names kept as sorted vectors: a set of strings, and a map from a
//! string to the first string it was filed under, each held in ascending
//! order of characters with no name twice — which is how an ordered set
//! hands its members out.

use vstd::prelude::*;

use crate::text::chars_of;

verus! {

/// `a` sorts strictly before `b`, character by character, a prefix first.
pub open spec fn lex_lt(a: Seq<char>, b: Seq<char>) -> bool
    decreases a.len(),
{
    if a.len() == 0 {
        b.len() > 0
    } else if b.len() == 0 {
        false
    } else if a[0] != b[0] {
        a[0] < b[0]
    } else {
        lex_lt(a.drop_first(), b.drop_first())
    }
}

pub proof fn lemma_lex_irreflexive(a: Seq<char>)
    ensures
        !lex_lt(a, a),
    decreases a.len(),
{
    if a.len() > 0 {
        lemma_lex_irreflexive(a.drop_first());
    }
}

pub proof fn lemma_lex_total(a: Seq<char>, b: Seq<char>)
    ensures
        a == b || lex_lt(a, b) || lex_lt(b, a),
        !(lex_lt(a, b) && lex_lt(b, a)),
    decreases a.len(),
{
    if a.len() > 0 && b.len() > 0 && a[0] == b[0] {
        lemma_lex_total(a.drop_first(), b.drop_first());
        if a.drop_first() == b.drop_first() {
            assert(a =~= seq![a[0]] + a.drop_first());
            assert(b =~= seq![b[0]] + b.drop_first());
        }
    } else if a.len() == 0 && b.len() == 0 {
        assert(a =~= b);
    }
}

pub proof fn lemma_lex_transitive(a: Seq<char>, b: Seq<char>, c: Seq<char>)
    requires
        lex_lt(a, b),
        lex_lt(b, c),
    ensures
        lex_lt(a, c),
    decreases a.len(),
{
    if a.len() > 0 && b.len() > 0 && c.len() > 0 && a[0] == b[0] && b[0] == c[0] {
        lemma_lex_transitive(a.drop_first(), b.drop_first(), c.drop_first());
    }
}

/// Whether `a` sorts strictly before `b`.
pub fn lex_less(a: &Vec<char>, b: &Vec<char>) -> (r: bool)
    ensures
        r == lex_lt(a@, b@),
{
    let mut k: usize = 0;
    assert(a@.skip(0) =~= a@);
    assert(b@.skip(0) =~= b@);
    while k < a.len() && k < b.len() && a[k] == b[k]
        invariant
            k <= a@.len(),
            k <= b@.len(),
            lex_lt(a@.skip(k as int), b@.skip(k as int)) == lex_lt(a@, b@),
        decreases a.len() - k,
    {
        assert(a@.skip(k as int).drop_first() =~= a@.skip(k + 1));
        assert(b@.skip(k as int).drop_first() =~= b@.skip(k + 1));
        k += 1;
    }
    assert(k < a@.len() ==> a@.skip(k as int)[0] == a@[k as int]);
    assert(k < b@.len() ==> b@.skip(k as int)[0] == b@[k as int]);
    if k == a.len() {
        k < b.len()
    } else if k == b.len() {
        false
    } else {
        a[k] < b[k]
    }
}

pub open spec fn names_view(v: Seq<String>) -> Seq<Seq<char>> {
    v.map_values(|s: String| s@)
}

/// Ascending, with nothing twice.
pub open spec fn ascending(v: Seq<Seq<char>>) -> bool {
    forall|i: int, j: int| 0 <= i < j < v.len() ==> lex_lt(#[trigger] v[i], #[trigger] v[j])
}

/// The set a sorted vector of names holds.
pub open spec fn name_set(v: Seq<String>) -> Set<Seq<char>> {
    names_view(v).to_set()
}

/// Put `name` into the ascending `out`, where it belongs, unless it is there.
pub fn insert_name(out: &mut Vec<String>, name: String)
    requires
        ascending(names_view(old(out)@)),
    ensures
        ascending(names_view(final(out)@)),
        name_set(final(out)@) == name_set(old(out)@).insert(name@),
{
    let ghost v = names_view(out@);
    let key = chars_of(name.as_str());
    let mut k: usize = 0;
    while k < out.len()
        invariant
            v == names_view(out@),
            key@ == name@,
            ascending(v),
            k <= v.len(),
            forall|q: int| 0 <= q < k ==> lex_lt(#[trigger] v[q], name@),
        ensures
            k <= v.len(),
            forall|q: int| 0 <= q < k ==> lex_lt(#[trigger] v[q], name@),
            k < v.len() ==> lex_lt(name@, v[k as int]),
        decreases out.len() - k,
    {
        let here = chars_of(out[k].as_str());
        assert(here@ == v[k as int]);
        if !lex_less(&here, &key) {
            proof {
                lemma_lex_total(v[k as int], name@);
            }
            if !lex_less(&key, &here) {
                assert(v.to_set().contains(name@)) by {
                    assert(v[k as int] == name@);
                }
                assert(v.to_set().insert(name@) =~= v.to_set());
                return;
            }
            break;
        }
        k += 1;
    }
    out.insert(k, name);
    proof {
        let w = names_view(out@);
        assert(w =~= v.insert(k as int, name@));
        assert forall|i: int, j: int| 0 <= i < j < w.len() implies lex_lt(
            #[trigger] w[i],
            #[trigger] w[j],
        ) by {
            if j < k {
            } else if i < k && j == k {
            } else if i < k && j > k {
                assert(w[i] == v[i] && w[j] == v[j - 1]);
            } else if i == k {
                if j - 1 > k {
                    lemma_lex_transitive(name@, v[k as int], v[j - 1]);
                }
            } else {
            }
        }
        assert(w.to_set() =~= v.to_set().insert(name@)) by {
            assert forall|x: Seq<char>| w.to_set().contains(x) implies v.to_set().insert(
                name@,
            ).contains(x) by {
                let i = choose|i: int| 0 <= i < w.len() && w[i] == x;
                if i < k {
                    assert(v[i] == x);
                } else if i > k {
                    assert(v[i - 1] == x);
                }
            }
            assert forall|x: Seq<char>| v.to_set().insert(name@).contains(x) implies w.to_set().contains(
                x,
            ) by {
                if x == name@ {
                    assert(w[k as int] == x);
                } else {
                    let i = choose|i: int| 0 <= i < v.len() && v[i] == x;
                    if i < k {
                        assert(w[i] == x);
                    } else {
                        assert(w[i + 1] == x);
                    }
                }
            }
        }
    }
}

pub open spec fn entry_keys(v: Seq<(String, String)>) -> Seq<Seq<char>> {
    v.map_values(|p: (String, String)| p.0@)
}

/// The (key, value) pairs a sorted map holds.
pub open spec fn entry_pairs(v: Seq<(String, String)>) -> Set<(Seq<char>, Seq<char>)> {
    v.map_values(|p: (String, String)| (p.0@, p.1@)).to_set()
}

/// File `val` under `key` in the map `out`, ascending by key, unless `key`
/// is already filed: the first value a key is given is the one it keeps.
pub fn insert_entry(out: &mut Vec<(String, String)>, key: String, val: String)
    requires
        ascending(entry_keys(old(out)@)),
    ensures
        ascending(entry_keys(final(out)@)),
        entry_keys(final(out)@).to_set() == entry_keys(old(out)@).to_set().insert(key@),
        entry_pairs(final(out)@) == if entry_keys(old(out)@).contains(key@) {
            entry_pairs(old(out)@)
        } else {
            entry_pairs(old(out)@).insert((key@, val@))
        },
{
    let ghost v = entry_keys(out@);
    let ghost pv = out@.map_values(|p: (String, String)| (p.0@, p.1@));
    let k_chars = chars_of(key.as_str());
    let mut k: usize = 0;
    while k < out.len()
        invariant
            v == entry_keys(out@),
            pv == out@.map_values(|p: (String, String)| (p.0@, p.1@)),
            k_chars@ == key@,
            ascending(v),
            k <= v.len(),
            forall|q: int| 0 <= q < k ==> lex_lt(#[trigger] v[q], key@),
        ensures
            k <= v.len(),
            forall|q: int| 0 <= q < k ==> lex_lt(#[trigger] v[q], key@),
            k < v.len() ==> (lex_lt(key@, v[k as int]) || v[k as int] == key@),
        decreases out.len() - k,
    {
        let here = chars_of(out[k].0.as_str());
        assert(here@ == v[k as int]);
        if !lex_less(&here, &k_chars) {
            proof {
                lemma_lex_total(v[k as int], key@);
            }
            break;
        }
        k += 1;
    }
    if k < out.len() {
        let here = chars_of(out[k].0.as_str());
        if !lex_less(&k_chars, &here) {
            proof {
                lemma_lex_total(v[k as int], key@);
                assert(v[k as int] == key@);
                assert(v.contains(key@));
                assert(v.to_set().insert(key@) =~= v.to_set());
            }
            return;
        }
    }
    proof {
        assert forall|q: int| 0 <= q < v.len() implies v[q] != key@ by {
            if q < k {
                lemma_lex_irreflexive(key@);
            } else {
                if q > k {
                    lemma_lex_transitive(key@, v[k as int], v[q]);
                }
                lemma_lex_irreflexive(key@);
            }
        }
        assert(!v.contains(key@));
    }
    out.insert(k, (key, val));
    proof {
        let w = entry_keys(out@);
        let pw = out@.map_values(|p: (String, String)| (p.0@, p.1@));
        assert(w =~= v.insert(k as int, key@));
        assert(pw =~= pv.insert(k as int, (key@, val@)));
        assert forall|i: int, j: int| 0 <= i < j < w.len() implies lex_lt(
            #[trigger] w[i],
            #[trigger] w[j],
        ) by {
            if j < k {
            } else if i < k && j == k {
            } else if i < k && j > k {
                assert(w[i] == v[i] && w[j] == v[j - 1]);
            } else if i == k {
                if j - 1 > k {
                    lemma_lex_transitive(key@, v[k as int], v[j - 1]);
                }
            } else {
            }
        }
        assert(w.to_set() =~= v.to_set().insert(key@)) by {
            assert forall|x: Seq<char>| w.to_set().contains(x) implies v.to_set().insert(
                key@,
            ).contains(x) by {
                let i = choose|i: int| 0 <= i < w.len() && w[i] == x;
                if i < k {
                    assert(v[i] == x);
                } else if i > k {
                    assert(v[i - 1] == x);
                }
            }
            assert forall|x: Seq<char>| v.to_set().insert(key@).contains(x) implies w.to_set().contains(
                x,
            ) by {
                if x == key@ {
                    assert(w[k as int] == x);
                } else {
                    let i = choose|i: int| 0 <= i < v.len() && v[i] == x;
                    if i < k {
                        assert(w[i] == x);
                    } else {
                        assert(w[i + 1] == x);
                    }
                }
            }
        }
        assert(pw.to_set() =~= pv.to_set().insert((key@, val@))) by {
            assert forall|x: (Seq<char>, Seq<char>)| pw.to_set().contains(x) implies pv.to_set().insert(
                (key@, val@),
            ).contains(x) by {
                let i = choose|i: int| 0 <= i < pw.len() && pw[i] == x;
                if i < k {
                    assert(pv[i] == x);
                } else if i > k {
                    assert(pv[i - 1] == x);
                }
            }
            assert forall|x: (Seq<char>, Seq<char>)| pv.to_set().insert((key@, val@)).contains(
                x,
            ) implies pw.to_set().contains(x) by {
                if x == (key@, val@) {
                    assert(pw[k as int] == x);
                } else {
                    let i = choose|i: int| 0 <= i < pv.len() && pv[i] == x;
                    if i < k {
                        assert(pw[i] == x);
                    } else {
                        assert(pw[i + 1] == x);
                    }
                }
            }
        }
    }
}

} // verus!
