//! What folding the manager's snapshot into the ask queue promises across
//! calls: every reported ask that may join does, an ask the snapshot can
//! speak for and no longer lists is gone, the live stream's chat is left
//! alone, and a repeated snapshot changes nothing.

use vstd::prelude::*;

use crate::code::{Entry, joins, kept_answers, listed, merged_queue, offer_all, queued, speaks_for, survives};
use crate::seqs::{lemma_filter_all, lemma_filter_within};

verus! {

/// Whether a reported ask may join a queue at all: it names a chat and an
/// id, it is not the live stream's, and it was not answered here.
pub open spec fn eligible(
    answered: Seq<(Seq<char>, Seq<char>)>,
    streaming: Option<Seq<char>>,
    ask: Entry,
) -> bool {
    &&& ask.0.len() > 0
    &&& ask.1.id.len() > 0
    &&& streaming != Some(ask.0)
    &&& !answered.contains((ask.0, ask.1.id))
}

/// Offering asks only appends: the queue offered to is the front of the
/// result, and what follows was reported.
proof fn lemma_offer_appends(
    q: Seq<Entry>,
    answered: Seq<(Seq<char>, Seq<char>)>,
    streaming: Option<Seq<char>>,
    asks: Seq<Entry>,
)
    ensures
        offer_all(q, answered, streaming, asks).len() >= q.len(),
        offer_all(q, answered, streaming, asks).take(q.len() as int) == q,
        forall|k: int|
            q.len() <= k < offer_all(q, answered, streaming, asks).len() ==> asks.contains(
                #[trigger] offer_all(q, answered, streaming, asks)[k],
            ),
        forall|k: int|
            q.len() <= k < offer_all(q, answered, streaming, asks).len() ==> eligible(
                answered,
                streaming,
                #[trigger] offer_all(q, answered, streaming, asks)[k],
            ),
    decreases asks.len(),
{
    if asks.len() > 0 {
        let before = offer_all(q, answered, streaming, asks.drop_last());
        lemma_offer_appends(q, answered, streaming, asks.drop_last());
        let r = offer_all(q, answered, streaming, asks);
        assert forall|k: int| q.len() <= k < r.len() implies asks.contains(#[trigger] r[k]) by {
            if k < before.len() {
                assert(r[k] == before[k]);
                let j = choose|j: int| 0 <= j < asks.drop_last().len() && asks.drop_last()[j] == before[k];
                assert(asks[j] == before[k]);
            } else {
                assert(r[k] == asks.last());
                assert(asks[asks.len() - 1] == asks.last());
            }
        }
        assert(r.take(q.len() as int) =~= q) by {
            assert(before.len() >= q.len());
            assert forall|k: int| 0 <= k < q.len() implies r[k] == q[k] by {
                assert(before.take(q.len() as int)[k] == q[k]);
            }
        }
        assert forall|k: int| q.len() <= k < r.len() implies eligible(
            answered,
            streaming,
            #[trigger] r[k],
        ) by {
            if k < before.len() {
                assert(r[k] == before[k]);
            } else {
                assert(r[k] == asks.last());
            }
        }
    }
}

/// After the offer, every eligible reported ask is queued.
proof fn lemma_offer_queues_eligible(
    q: Seq<Entry>,
    answered: Seq<(Seq<char>, Seq<char>)>,
    streaming: Option<Seq<char>>,
    asks: Seq<Entry>,
)
    ensures
        forall|i: int|
            0 <= i < asks.len() && eligible(answered, streaming, #[trigger] asks[i]) ==> queued(
                offer_all(q, answered, streaming, asks),
                asks[i].0,
                asks[i].1.id,
            ),
    decreases asks.len(),
{
    if asks.len() > 0 {
        let front = asks.drop_last();
        let before = offer_all(q, answered, streaming, front);
        let r = offer_all(q, answered, streaming, asks);
        lemma_offer_queues_eligible(q, answered, streaming, front);
        let last = asks.last();
        assert forall|i: int|
            0 <= i < asks.len() && eligible(answered, streaming, #[trigger] asks[i]) implies queued(
            r,
            asks[i].0,
            asks[i].1.id,
        ) by {
            if i < asks.len() - 1 {
                assert(front[i] == asks[i]);
                assert(queued(before, asks[i].0, asks[i].1.id));
                if joins(before, answered, streaming, last) {
                    let j = choose|j: int|
                        0 <= j < before.len() && #[trigger] before[j].0 == asks[i].0 && before[j].1.id
                            == asks[i].1.id;
                    assert(r[j] == before[j]);
                }
            } else {
                assert(asks[i] == last);
                if joins(before, answered, streaming, last) {
                    assert(r[before.len() as int] == last);
                }
            }
        }
    }
}

/// Offering asks that are all queued already, or may not join, changes
/// nothing.
proof fn lemma_offer_settled(
    q: Seq<Entry>,
    answered: Seq<(Seq<char>, Seq<char>)>,
    streaming: Option<Seq<char>>,
    asks: Seq<Entry>,
)
    requires
        forall|i: int|
            0 <= i < asks.len() && eligible(answered, streaming, #[trigger] asks[i]) ==> queued(
                q,
                asks[i].0,
                asks[i].1.id,
            ),
    ensures
        offer_all(q, answered, streaming, asks) == q,
    decreases asks.len(),
{
    if asks.len() > 0 {
        let front = asks.drop_last();
        assert forall|i: int|
            0 <= i < front.len() && eligible(answered, streaming, #[trigger] front[i]) implies queued(
            q,
            front[i].0,
            front[i].1.id,
        ) by {
            assert(front[i] == asks[i]);
        }
        lemma_offer_settled(q, answered, streaming, front);
        assert(asks[asks.len() - 1] == asks.last());
    }
}

/// Every entry of the merged queue survives the same snapshot again.
proof fn lemma_merged_survives(
    q: Seq<Entry>,
    answered: Seq<(Seq<char>, Seq<char>)>,
    asks: Seq<Entry>,
    unreachable: Seq<Seq<char>>,
    streaming: Option<Seq<char>>,
)
    ensures
        forall|k: int|
            0 <= k < merged_queue(q, answered, asks, unreachable, streaming).len() ==> #[trigger] survives(
                asks,
                unreachable,
                streaming,
                merged_queue(q, answered, asks, unreachable, streaming)[k].0,
                merged_queue(q, answered, asks, unreachable, streaming)[k].1.id,
            ),
{
    let keep = |e: Entry| survives(asks, unreachable, streaming, e.0, e.1.id);
    let f = q.filter(keep);
    let a1 = kept_answers(answered, asks, unreachable, streaming);
    let r = merged_queue(q, answered, asks, unreachable, streaming);
    lemma_filter_within(q, keep);
    lemma_offer_appends(f, a1, streaming, asks);
    assert forall|k: int| 0 <= k < r.len() implies #[trigger] survives(
        asks,
        unreachable,
        streaming,
        r[k].0,
        r[k].1.id,
    ) by {
        if k < f.len() {
            assert(r.take(f.len() as int)[k] == f[k]);
            assert(keep(f[k]));
        } else {
            assert(asks.contains(r[k]));
            let j = choose|j: int| 0 <= j < asks.len() && asks[j] == r[k];
            assert(asks[j].0 == r[k].0 && asks[j].1.id == r[k].1.id);
        }
    }
}

/// The point of the aggregate: after a snapshot, every reported ask that
/// names a chat and an id, is not the live stream's, and was not answered
/// here (a tombstone the snapshot still lists) is on the queue, whether or
/// not its chat was ever opened.
pub proof fn law_reported_asks_reach_the_queue(
    q: Seq<Entry>,
    answered: Seq<(Seq<char>, Seq<char>)>,
    asks: Seq<Entry>,
    unreachable: Seq<Seq<char>>,
    streaming: Option<Seq<char>>,
    i: int,
)
    requires
        0 <= i < asks.len(),
        eligible(kept_answers(answered, asks, unreachable, streaming), streaming, asks[i]),
    ensures
        queued(merged_queue(q, answered, asks, unreachable, streaming), asks[i].0, asks[i].1.id),
{
    let keep = |e: Entry| survives(asks, unreachable, streaming, e.0, e.1.id);
    lemma_offer_queues_eligible(
        q.filter(keep),
        kept_answers(answered, asks, unreachable, streaming),
        streaming,
        asks,
    );
}

/// An ask the snapshot could speak for and no longer lists leaves the
/// queue: every entry of a chat the snapshot speaks for is one it lists.
pub proof fn law_unlisted_asks_leave_the_queue(
    q: Seq<Entry>,
    answered: Seq<(Seq<char>, Seq<char>)>,
    asks: Seq<Entry>,
    unreachable: Seq<Seq<char>>,
    streaming: Option<Seq<char>>,
    k: int,
)
    requires
        0 <= k < merged_queue(q, answered, asks, unreachable, streaming).len(),
        speaks_for(unreachable, streaming, merged_queue(q, answered, asks, unreachable, streaming)[k].0),
    ensures
        listed(
            asks,
            merged_queue(q, answered, asks, unreachable, streaming)[k].0,
            merged_queue(q, answered, asks, unreachable, streaming)[k].1.id,
        ),
{
    let r = merged_queue(q, answered, asks, unreachable, streaming);
    lemma_merged_survives(q, answered, asks, unreachable, streaming);
    assert(survives(asks, unreachable, streaming, r[k].0, r[k].1.id));
}

/// A chat with a live stream is that stream's: the snapshot neither drops
/// nor adds any of its entries, and their order stands.
pub proof fn law_the_streaming_chat_is_left_alone(
    q: Seq<Entry>,
    answered: Seq<(Seq<char>, Seq<char>)>,
    asks: Seq<Entry>,
    unreachable: Seq<Seq<char>>,
    chat: Seq<char>,
)
    ensures
        merged_queue(q, answered, asks, unreachable, Some(chat)).filter(|e: Entry| e.0 == chat)
            == q.filter(|e: Entry| e.0 == chat),
{
    let s = Some(chat);
    let mine = |e: Entry| e.0 == chat;
    let keep = |e: Entry| survives(asks, unreachable, s, e.0, e.1.id);
    let f = q.filter(keep);
    let a1 = kept_answers(answered, asks, unreachable, s);
    let r = merged_queue(q, answered, asks, unreachable, s);
    lemma_offer_appends(f, a1, s, asks);
    // nothing offered belongs to the streaming chat
    assert forall|k: int| f.len() <= k < r.len() implies !mine(#[trigger] r[k]) by {
        assert(eligible(a1, s, r[k]));
    }
    assert(r =~= f + r.skip(f.len() as int));
    let rest = r.skip(f.len() as int);
    assert forall|i: int| 0 <= i < rest.len() implies !mine(#[trigger] rest[i]) by {
        assert(rest[i] == r[f.len() + i]);
    }
    rest.lemma_all_neg_filter_empty(mine);
    Seq::filter_distributes_over_add(f, rest, mine);
    // every entry of the streaming chat survives the snapshot
    lemma_filter_commutes(q, keep, mine);
}

/// Filtering the entries that pass `mine` out of those that pass `keep`
/// gives those that pass `mine`, where each of them passes `keep`.
proof fn lemma_filter_commutes<A>(s: Seq<A>, keep: spec_fn(A) -> bool, mine: spec_fn(A) -> bool)
    requires
        forall|x: A| #[trigger] mine(x) ==> keep(x),
    ensures
        s.filter(keep).filter(mine) == s.filter(mine),
    decreases s.len(),
{
    if s.len() > 0 {
        let d = s.drop_last();
        let x = s.last();
        lemma_filter_commutes(d, keep, mine);
        assert(s =~= d.push(x));
        d.lemma_filter_push(x, keep);
        d.lemma_filter_push(x, mine);
        if keep(x) {
            d.filter(keep).lemma_filter_push(x, mine);
        }
    } else {
        assert(s.filter(keep) =~= s);
        assert(s.filter(mine) =~= s) by {
            reveal_with_fuel(Seq::filter, 1);
        }
    }
}

/// A snapshot seen twice is the normal case, not a second ask: merging the
/// same snapshot again changes neither the queue nor the tombstones.
pub proof fn law_a_repeated_snapshot_changes_nothing(
    q: Seq<Entry>,
    answered: Seq<(Seq<char>, Seq<char>)>,
    asks: Seq<Entry>,
    unreachable: Seq<Seq<char>>,
    streaming: Option<Seq<char>>,
)
    ensures
        kept_answers(
            kept_answers(answered, asks, unreachable, streaming),
            asks,
            unreachable,
            streaming,
        ) == kept_answers(answered, asks, unreachable, streaming),
        merged_queue(
            merged_queue(q, answered, asks, unreachable, streaming),
            kept_answers(answered, asks, unreachable, streaming),
            asks,
            unreachable,
            streaming,
        ) == merged_queue(q, answered, asks, unreachable, streaming),
{
    let keep_a = |a: (Seq<char>, Seq<char>)| survives(asks, unreachable, streaming, a.0, a.1);
    let keep_q = |e: Entry| survives(asks, unreachable, streaming, e.0, e.1.id);
    let a1 = kept_answers(answered, asks, unreachable, streaming);
    lemma_filter_within(answered, keep_a);
    lemma_filter_all(a1, keep_a);
    let q1 = merged_queue(q, answered, asks, unreachable, streaming);
    lemma_merged_survives(q, answered, asks, unreachable, streaming);
    assert forall|k: int| 0 <= k < q1.len() implies keep_q(#[trigger] q1[k]) by {
        assert(survives(asks, unreachable, streaming, q1[k].0, q1[k].1.id));
    }
    lemma_filter_all(q1, keep_q);
    lemma_offer_queues_eligible(q.filter(keep_q), a1, streaming, asks);
    lemma_offer_settled(q1, a1, streaming, asks);
}

} // verus!
