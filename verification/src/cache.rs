//! The on-device transcript cache: instant open while a container wakes,
//! read-only offline. The server stays authoritative; the cache keeps the
//! most recent `CACHE_MAX_ITEMS` items of a chat, and the `CACHE_MAX_CHATS`
//! chats written most recently.

use vstd::prelude::*;

use crate::keyed::keyed_view;
use crate::text::same_text;
use crate::review::pairs_view;
use crate::transcript::{copy_item, items_view, put, put_index, ChatItem, ItemView};

verus! {

/// How many chats the cache keeps.
pub const CACHE_MAX_CHATS: usize = 15;

/// How many items of one chat the cache keeps: the most recent.
pub const CACHE_MAX_ITEMS: usize = 300;

/// One chat as the cache keeps it.
#[derive(Debug, PartialEq, Eq)]
pub struct CachedChat {
    pub title: String,
    pub session_id: Option<String>,
    pub items: Vec<ChatItem>,
    /// Path to the fingerprint of the patch marked reviewed.
    pub diff_seen: Vec<(String, u64)>,
    /// Unix seconds of the last write: what eviction goes by.
    pub updated: u64,
}

/// A cached chat, read as values.
pub struct CachedView {
    pub title: Seq<char>,
    pub session_id: Option<Seq<char>>,
    pub items: Seq<ItemView>,
    pub diff_seen: Seq<(Seq<char>, u64)>,
    pub updated: u64,
}

impl View for CachedChat {
    type V = CachedView;

    open spec fn view(&self) -> CachedView {
        CachedView {
            title: self.title@,
            session_id: match self.session_id {
                Some(s) => Some(s@),
                None => None,
            },
            items: items_view(self.items@),
            diff_seen: pairs_view(self.diff_seen@),
            updated: self.updated,
        }
    }
}

/// The items a chat is cached with: the most recent `CACHE_MAX_ITEMS`.
pub open spec fn kept_items(items: Seq<ItemView>) -> Seq<ItemView> {
    if items.len() > CACHE_MAX_ITEMS {
        items.skip(items.len() - CACHE_MAX_ITEMS)
    } else {
        items
    }
}

/// The items of a transcript worth caching: the most recent ones.
pub fn cached_items(items: &Vec<ChatItem>) -> (out: Vec<ChatItem>)
    ensures
        items_view(out@) == kept_items(items_view(items@)),
{
    let ghost iv = items_view(items@);
    let start: usize = if items.len() > CACHE_MAX_ITEMS {
        items.len() - CACHE_MAX_ITEMS
    } else {
        0
    };
    let mut out: Vec<ChatItem> = Vec::new();
    let mut k: usize = start;
    while k < items.len()
        invariant
            iv == items_view(items@),
            start <= k <= iv.len(),
            items_view(out@) == iv.subrange(start as int, k as int),
        decreases items.len() - k,
    {
        let item = copy_item(&items[k]);
        let ghost before = items_view(out@);
        assert(iv[k as int] == items@[k as int]@);
        out.push(item);
        assert(items_view(out@) =~= before.push(iv[k as int]));
        assert(items_view(out@) =~= iv.subrange(start as int, k + 1));
        k += 1;
    }
    assert(iv.subrange(start as int, iv.len() as int) =~= kept_items(iv));
    out
}

/// Whether entry `i` is the first of those written longest ago.
pub open spec fn is_oldest(chats: Seq<(Seq<char>, CachedView)>, i: int) -> bool {
    &&& 0 <= i < chats.len()
    &&& forall|j: int| 0 <= j < chats.len() ==> chats[i].1.updated <= (#[trigger] chats[j]).1.updated
    &&& forall|j: int| 0 <= j < i ==> chats[i].1.updated < (#[trigger] chats[j]).1.updated
}

/// The entry eviction takes: the first of those written longest ago.
pub open spec fn oldest(chats: Seq<(Seq<char>, CachedView)>) -> int {
    choose|i: int| is_oldest(chats, i)
}

/// The cache after eviction has brought it within `CACHE_MAX_CHATS`.
pub open spec fn evicted(chats: Seq<(Seq<char>, CachedView)>) -> Seq<(Seq<char>, CachedView)>
    decreases chats.len(),
{
    if chats.len() <= CACHE_MAX_CHATS {
        chats
    } else if is_oldest(chats, oldest(chats)) {
        evicted(chats.remove(oldest(chats)))
    } else {
        chats
    }
}

proof fn lemma_oldest_is_unique(chats: Seq<(Seq<char>, CachedView)>, i: int)
    requires
        is_oldest(chats, i),
    ensures
        is_oldest(chats, oldest(chats)),
        oldest(chats) == i,
{
    let o = oldest(chats);
    assert(is_oldest(chats, o));
    if o < i {
        assert(chats[i].1.updated < chats[o].1.updated);
    } else if i < o {
        assert(chats[o].1.updated < chats[i].1.updated);
    }
}

proof fn lemma_an_oldest(chats: Seq<(Seq<char>, CachedView)>) -> (m: int)
    requires
        chats.len() > 0,
    ensures
        is_oldest(chats, m),
    decreases chats.len(),
{
    if chats.len() == 1 {
        0
    } else {
        let init = chats.drop_last();
        let m0 = lemma_an_oldest(init);
        assert forall|j: int| 0 <= j < init.len() implies #[trigger] chats[j] == init[j] by {}
        let last = chats.len() - 1;
        if chats[last].1.updated < chats[m0].1.updated {
            assert forall|j: int| 0 <= j < chats.len() implies chats[last].1.updated <= (
            #[trigger] chats[j]).1.updated by {
                if j < last {
                    assert(init[m0].1.updated <= init[j].1.updated);
                }
            }
            last
        } else {
            assert forall|j: int| 0 <= j < chats.len() implies chats[m0].1.updated <= (
            #[trigger] chats[j]).1.updated by {
                if j < last {
                    assert(init[m0].1.updated <= init[j].1.updated);
                }
            }
            assert forall|j: int| 0 <= j < m0 implies chats[m0].1.updated < (
            #[trigger] chats[j]).1.updated by {
                assert(init[m0].1.updated < init[j].1.updated);
            }
            m0
        }
    }
}

/// Where the first of the entries written longest ago stands.
fn oldest_index(chats: &Vec<(String, CachedChat)>) -> (i: usize)
    requires
        chats.len() > 0,
    ensures
        is_oldest(keyed_view(chats@), i as int),
{
    let ghost cv = keyed_view(chats@);
    let mut best: usize = 0;
    let mut k: usize = 1;
    while k < chats.len()
        invariant
            cv == keyed_view(chats@),
            cv.len() == chats.len(),
            0 <= best < k <= cv.len(),
            forall|j: int| 0 <= j < k ==> cv[best as int].1.updated <= (#[trigger] cv[j]).1.updated,
            forall|j: int| 0 <= j < best ==> cv[best as int].1.updated < (#[trigger] cv[j]).1.updated,
        decreases chats.len() - k,
    {
        assert(cv[k as int].1.updated == chats@[k as int].1.updated);
        assert(cv[best as int].1.updated == chats@[best as int].1.updated);
        if chats[k].1.updated < chats[best].1.updated {
            best = k;
        }
        k += 1;
    }
    best
}

/// The cache: each chat by its id.
pub struct CodeCache {
    pub chats: Vec<(String, CachedChat)>,
}

impl CodeCache {
    pub fn new() -> (c: CodeCache)
        ensures
            c.chats@.len() == 0,
    {
        CodeCache { chats: Vec::new() }
    }

    /// Write a chat through to the cache, then evict the chats written
    /// longest ago until at most `CACHE_MAX_CHATS` remain.
    pub fn store(&mut self, chat_id: &str, entry: CachedChat)
        ensures
            keyed_view(final(self).chats@) == evicted(
                put(keyed_view(old(self).chats@), chat_id@, entry@),
            ),
    {
        let ghost ev = entry@;
        put_index(&mut self.chats, chat_id, entry);
        while self.chats.len() > CACHE_MAX_CHATS
            invariant
                evicted(keyed_view(self.chats@)) == evicted(
                    put(keyed_view(old(self).chats@), chat_id@, ev),
                ),
            decreases self.chats.len(),
        {
            let ghost before = keyed_view(self.chats@);
            let i = oldest_index(&self.chats);
            proof {
                lemma_oldest_is_unique(before, i as int);
            }
            self.chats.remove(i);
            assert(keyed_view(self.chats@) =~= before.remove(i as int));
        }
    }
}

impl CodeCache {
    /// A deleted chat leaves the cache with it.
    pub fn forget(&mut self, chat_id: &str)
        ensures
            keyed_view(final(self).chats@) == keyed_view(old(self).chats@).filter(
                |e: (Seq<char>, CachedView)| e.0 != chat_id@,
            ),
    {
        let ghost cv = keyed_view(self.chats@);
        let ghost pred = |e: (Seq<char>, CachedView)| e.0 != chat_id@;
        let ghost mut k: int = 0;
        let mut i: usize = 0;
        while i < self.chats.len()
            invariant
                pred == (|e: (Seq<char>, CachedView)| e.0 != chat_id@),
                0 <= k <= cv.len(),
                i == cv.take(k).filter(pred).len(),
                keyed_view(self.chats@) == cv.take(k).filter(pred) + cv.skip(k),
            decreases cv.len() - k,
        {
            let ghost e = cv[k];
            let ghost done = cv.take(k).filter(pred);
            assert(keyed_view(self.chats@)[i as int] == e);
            assert(cv.skip(k) =~= seq![e] + cv.skip(k + 1));
            assert(cv.take(k + 1) =~= cv.take(k).push(e));
            proof {
                cv.take(k).lemma_filter_push(e, pred);
            }
            if same_text(self.chats[i].0.as_str(), chat_id) {
                let ghost before = keyed_view(self.chats@);
                let _gone = self.chats.remove(i);
                assert(keyed_view(self.chats@) =~= before.remove(i as int));
                assert(keyed_view(self.chats@) =~= done + cv.skip(k + 1));
            } else {
                assert(keyed_view(self.chats@) =~= done.push(e) + cv.skip(k + 1));
                i += 1;
            }
            proof {
                k = k + 1;
            }
        }
        assert(k == cv.len()) by {
            assert(keyed_view(self.chats@).len() == i + cv.skip(k).len());
        }
        assert(cv.take(cv.len() as int) =~= cv);
        assert(cv.skip(k) =~= Seq::<(Seq<char>, CachedView)>::empty());
        assert(keyed_view(self.chats@) =~= cv.filter(pred));
    }
}

/// Write the open chat's transcript through to the cache, truncated to its
/// most recent items and stamped `now`; a chat with no id yet is not
/// cached.
pub fn write_cache(
    cache: &mut CodeCache,
    chat_id: Option<&str>,
    title: &str,
    session_id: &Option<String>,
    items: &Vec<ChatItem>,
    diff_seen: Vec<(String, u64)>,
    now: u64,
)
    ensures
        match chat_id {
            None => final(cache).chats@ == old(cache).chats@,
            Some(id) => keyed_view(final(cache).chats@) == evicted(
                put(
                    keyed_view(old(cache).chats@),
                    id@,
                    CachedView {
                        title: title@,
                        session_id: crate::attach::opt_view(*session_id),
                        items: kept_items(items_view(items@)),
                        diff_seen: pairs_view(diff_seen@),
                        updated: now,
                    },
                ),
            ),
        },
{
    let id = match chat_id {
        Some(id) => id,
        None => return,
    };
    let session = match session_id {
        Some(s) => Some(s.clone()),
        None => None,
    };
    let entry = CachedChat {
        title: title.to_owned(),
        session_id: session,
        items: cached_items(items),
        diff_seen,
        updated: now,
    };
    cache.store(id, entry);
}

/// A store leaves at most `CACHE_MAX_CHATS` chats behind it, and every chat
/// it leaves was cached before it or is the one it wrote.
pub proof fn law_the_cache_keeps_its_cap(chats: Seq<(Seq<char>, CachedView)>)
    ensures
        evicted(chats).len() <= CACHE_MAX_CHATS,
        forall|e| #[trigger] evicted(chats).contains(e) ==> chats.contains(e),
    decreases chats.len(),
{
    if chats.len() > CACHE_MAX_CHATS {
        let m = lemma_an_oldest(chats);
        lemma_oldest_is_unique(chats, m);
        let rest = chats.remove(m);
        law_the_cache_keeps_its_cap(rest);
        assert forall|e| #[trigger] evicted(chats).contains(e) implies chats.contains(e) by {
            let q = choose|q: int| 0 <= q < rest.len() && rest[q] == e;
            if q < m {
                assert(chats[q] == e);
            } else {
                assert(chats[q + 1] == e);
            }
        }
    }
}

proof fn lemma_newest_survives(s: Seq<(Seq<char>, CachedView)>, x: (Seq<char>, CachedView))
    requires
        s.contains(x),
        forall|j: int| 0 <= j < s.len() ==> (#[trigger] s[j]) == x || s[j].1.updated < x.1.updated,
    ensures
        evicted(s).contains(x),
    decreases s.len(),
{
    if s.len() > CACHE_MAX_CHATS {
        let m = lemma_an_oldest(s);
        lemma_oldest_is_unique(s, m);
        let rest = s.remove(m);
        let q = choose|q: int| 0 <= q < s.len() && s[q] == x;
        if s[m] == x {
            let other = if m == 0 { 1int } else { 0int };
            assert(s[m].1.updated <= s[other].1.updated);
            assert(s[other] == x);
            if other < m {
                assert(rest[other] == x);
            } else {
                assert(rest[other - 1] == x);
            }
        } else if q < m {
            assert(rest[q] == x);
        } else {
            assert(rest[q - 1] == x);
        }
        assert forall|j: int| 0 <= j < rest.len() implies (#[trigger] rest[j]) == x
            || rest[j].1.updated < x.1.updated by {
            if j < m {
                assert(rest[j] == s[j]);
            } else {
                assert(rest[j] == s[j + 1]);
            }
        }
        lemma_newest_survives(rest, x);
    }
}

/// A chat written later than every chat already cached is still cached
/// after the store, with what was written.
pub proof fn law_the_newest_write_stays(
    chats: Seq<(Seq<char>, CachedView)>,
    chat_id: Seq<char>,
    entry: CachedView,
)
    requires
        forall|j: int| 0 <= j < chats.len() ==> (#[trigger] chats[j]).1.updated < entry.updated,
    ensures
        evicted(put(chats, chat_id, entry)).contains((chat_id, entry)),
{
    let p = put(chats, chat_id, entry);
    let x = (chat_id, entry);
    match crate::keyed::first_index(chats, chat_id) {
        Some(i) => {
            crate::keyed::lemma_first_index_is_first(chats, chat_id);
            assert(p[i] == x);
        },
        None => {
            assert(p[chats.len() as int] == x);
        },
    }
    assert forall|j: int| 0 <= j < p.len() implies (#[trigger] p[j]) == x || p[j].1.updated
        < x.1.updated by {
        if j < chats.len() && p[j] != x {
            assert(p[j] == chats[j]);
        }
    }
    lemma_newest_survives(p, x);
}

} // verus!
