//! Lists keyed by a path or an id: the value of a key is that of its first
//! entry, a key is added by appending, and a value is changed in place.

use vstd::prelude::*;

use crate::text::same_text;

verus! {

/// The value of the first entry under `key`, if any.
pub open spec fn first_value<V>(entries: Seq<(Seq<char>, V)>, key: Seq<char>) -> Option<V>
    decreases entries.len(),
{
    if entries.len() == 0 {
        None
    } else if entries[0].0 == key {
        Some(entries[0].1)
    } else {
        first_value(entries.drop_first(), key)
    }
}

/// The index of the first entry under `key`, if any.
pub open spec fn first_index<V>(entries: Seq<(Seq<char>, V)>, key: Seq<char>) -> Option<int>
    decreases entries.len(),
{
    if entries.len() == 0 {
        None
    } else if entries[0].0 == key {
        Some(0)
    } else {
        match first_index(entries.drop_first(), key) {
            Some(i) => Some(i + 1),
            None => None,
        }
    }
}

/// The keys of a list, read as characters.
pub open spec fn keys_of<V>(entries: Seq<(Seq<char>, V)>) -> Seq<Seq<char>> {
    entries.map_values(|e: (Seq<char>, V)| e.0)
}

/// A list read as characters.
pub open spec fn keyed_view<V: View>(v: Seq<(String, V)>) -> Seq<(Seq<char>, V::V)> {
    v.map_values(|e: (String, V)| (e.0@, e.1@))
}

/// Where the first entry under a key is, and what it holds.
pub proof fn lemma_first_found<V>(entries: Seq<(Seq<char>, V)>, key: Seq<char>, j: int)
    requires
        0 <= j < entries.len(),
        entries[j].0 == key,
        forall|q: int| 0 <= q < j ==> (#[trigger] entries[q]).0 != key,
    ensures
        first_index(entries, key) == Some(j),
        first_value(entries, key) == Some(entries[j].1),
    decreases j,
{
    if j > 0 {
        assert forall|q: int| 0 <= q < j - 1 implies (#[trigger] entries.drop_first()[q]).0 != key by {
            assert(entries.drop_first()[q] == entries[q + 1]);
        }
        assert(entries[0].0 != key);
        lemma_first_found(entries.drop_first(), key, j - 1);
    }
}

/// A key no entry holds has no value.
pub proof fn lemma_first_absent<V>(entries: Seq<(Seq<char>, V)>, key: Seq<char>)
    requires
        forall|q: int| 0 <= q < entries.len() ==> (#[trigger] entries[q]).0 != key,
    ensures
        first_index(entries, key) is None,
        first_value(entries, key) is None,
    decreases entries.len(),
{
    if entries.len() > 0 {
        assert(entries[0].0 != key);
        assert forall|q: int| 0 <= q < entries.len() - 1 implies (#[trigger] entries.drop_first()[
            q
        ]).0 != key by {
            assert(entries.drop_first()[q] == entries[q + 1]);
        }
        lemma_first_absent(entries.drop_first(), key);
    }
}

/// The first index under a key is an entry under that key, and none before
/// it is.
pub proof fn lemma_first_index_is_first<V>(entries: Seq<(Seq<char>, V)>, key: Seq<char>)
    ensures
        match first_index(entries, key) {
            Some(j) => 0 <= j < entries.len() && entries[j].0 == key && (forall|q: int|
                0 <= q < j ==> (#[trigger] entries[q]).0 != key) && first_value(entries, key)
                == Some(entries[j].1),
            None => first_value(entries, key) is None && forall|q: int|
                0 <= q < entries.len() ==> (#[trigger] entries[q]).0 != key,
        },
    decreases entries.len(),
{
    if entries.len() > 0 && entries[0].0 != key {
        let rest = entries.drop_first();
        lemma_first_index_is_first(rest, key);
        match first_index(rest, key) {
            Some(j) => {
                assert forall|q: int| 0 <= q < j + 1 implies (#[trigger] entries[q]).0 != key by {
                    if q > 0 {
                        assert(entries[q] == rest[q - 1]);
                    }
                }
                assert(entries[j + 1] == rest[j]);
            },
            None => {
                assert forall|q: int| 0 <= q < entries.len() implies (#[trigger] entries[q]).0 != key by {
                    if q > 0 {
                        assert(entries[q] == rest[q - 1]);
                    }
                }
            },
        }
    }
}

/// Changing the value of the first entry under a key changes that key's
/// value and no other's.
pub proof fn lemma_first_update<V>(entries: Seq<(Seq<char>, V)>, key: Seq<char>, j: int, x: V, other: Seq<char>)
    requires
        first_index(entries, key) == Some(j),
    ensures
        first_value(entries.update(j, (key, x)), other) == if other == key {
            Some(x)
        } else {
            first_value(entries, other)
        },
        keys_of(entries.update(j, (key, x))) == keys_of(entries),
    decreases entries.len(),
{
    lemma_first_index_is_first(entries, key);
    let u = entries.update(j, (key, x));
    assert(keys_of(u) =~= keys_of(entries));
    if j == 0 {
        assert(u.drop_first() =~= entries.drop_first());
    } else {
        let rest = entries.drop_first();
        assert(first_index(rest, key) == Some(j - 1));
        lemma_first_update(rest, key, j - 1, x, other);
        assert(u.drop_first() =~= rest.update(j - 1, (key, x)));
        assert(u[0] == entries[0]);
    }
}

/// Appending an entry under a key no entry holds gives that key its value
/// and changes no other's.
pub proof fn lemma_first_push<V>(entries: Seq<(Seq<char>, V)>, key: Seq<char>, x: V, other: Seq<char>)
    requires
        first_index(entries, key) is None,
    ensures
        first_value(entries.push((key, x)), other) == if other == key {
            Some(x)
        } else {
            first_value(entries, other)
        },
        first_index(entries.push((key, x)), key) == Some(entries.len() as int),
    decreases entries.len(),
{
    lemma_first_index_is_first(entries, key);
    let p = entries.push((key, x));
    if entries.len() == 0 {
        assert(p.drop_first() =~= Seq::<(Seq<char>, V)>::empty());
    } else {
        assert(p.drop_first() =~= entries.drop_first().push((key, x)));
        assert(first_index(entries.drop_first(), key) is None);
        lemma_first_push(entries.drop_first(), key, x, other);
    }
    lemma_first_found(p, key, entries.len() as int);
}

/// Where the first entry under `key` is.
pub fn find_key<V: View>(entries: &Vec<(String, V)>, key: &str) -> (r: Option<usize>)
    ensures
        match r {
            Some(j) => first_index(keyed_view(entries@), key@) == Some(j as int),
            None => first_index(keyed_view(entries@), key@) is None,
        },
{
    let ghost ev = keyed_view(entries@);
    let mut k: usize = 0;
    while k < entries.len()
        invariant
            ev == keyed_view(entries@),
            k <= ev.len(),
            forall|q: int| 0 <= q < k ==> (#[trigger] ev[q]).0 != key@,
        decreases entries.len() - k,
    {
        assert(ev[k as int] == (entries@[k as int].0@, entries@[k as int].1@));
        if same_text(entries[k].0.as_str(), key) {
            proof {
                lemma_first_found(ev, key@, k as int);
            }
            return Some(k);
        }
        k += 1;
    }
    proof {
        lemma_first_absent(ev, key@);
    }
    None
}

/// Appending an entry leaves every key that had a value with it, and
/// gives the appended key a value if it had none.
pub proof fn lemma_first_value_push<V>(entries: Seq<(Seq<char>, V)>, x: (Seq<char>, V), key: Seq<char>)
    ensures
        first_value(entries.push(x), key) == match first_value(entries, key) {
            Some(v) => Some(v),
            None => if x.0 == key {
                Some(x.1)
            } else {
                None
            },
        },
    decreases entries.len(),
{
    if entries.len() > 0 {
        assert(entries.push(x)[0] == entries[0]);
        assert(entries.push(x).drop_first() =~= entries.drop_first().push(x));
        lemma_first_value_push(entries.drop_first(), x, key);
        assert(first_value(entries.push(x).drop_first(), key) == first_value(
            entries.drop_first().push(x),
            key,
        ));
    } else {
        assert(entries.push(x)[0] == x);
        assert(entries.push(x).drop_first() =~= Seq::<(Seq<char>, V)>::empty());
        assert(first_value(entries.push(x).drop_first(), key) is None);
    }
}

} // verus!
