use goose_mobile::cache::{
    cached_items, write_cache, CachedChat, CodeCache, CACHE_MAX_CHATS, CACHE_MAX_ITEMS,
};
use goose_mobile::transcript::ChatItem;

fn reply(n: usize) -> ChatItem {
    ChatItem::Assistant { message_id: None, text: format!("reply {n}") }
}

fn chat(title: &str, updated: u64) -> CachedChat {
    CachedChat {
        title: title.to_string(),
        session_id: None,
        items: vec![reply(0)],
        diff_seen: vec![("src/lib.rs".to_string(), 7)],
        updated,
    }
}

#[test]
fn a_short_transcript_is_cached_whole() {
    let items = vec![reply(1), reply(2)];
    assert_eq!(cached_items(&items), items);
}

#[test]
fn a_long_transcript_keeps_its_latest_items() {
    let items: Vec<ChatItem> = (0..CACHE_MAX_ITEMS + 5).map(reply).collect();
    let kept = cached_items(&items);
    assert_eq!(kept.len(), CACHE_MAX_ITEMS);
    assert_eq!(kept[0], reply(5));
    assert_eq!(kept[CACHE_MAX_ITEMS - 1], reply(CACHE_MAX_ITEMS + 4));
}

#[test]
fn a_second_write_replaces_the_entry_in_place() {
    let mut cache = CodeCache::new();
    cache.store("a", chat("first", 1));
    cache.store("b", chat("other", 2));
    cache.store("a", chat("second", 3));
    assert_eq!(cache.chats.len(), 2);
    assert_eq!(cache.chats[0].0, "a");
    assert_eq!(cache.chats[0].1.title, "second");
    assert_eq!(cache.chats[1].0, "b");
}

#[test]
fn the_chat_written_longest_ago_is_evicted() {
    let mut cache = CodeCache::new();
    for n in 0..CACHE_MAX_CHATS {
        // chat 3 is the oldest
        let updated = if n == 3 { 1 } else { 100 + n as u64 };
        cache.store(&format!("chat{n}"), chat("t", updated));
    }
    assert_eq!(cache.chats.len(), CACHE_MAX_CHATS);
    cache.store("fresh", chat("new", 1_000));
    assert_eq!(cache.chats.len(), CACHE_MAX_CHATS);
    assert!(cache.chats.iter().all(|(k, _)| k != "chat3"));
    assert!(cache.chats.iter().any(|(k, v)| k == "fresh" && v.title == "new"));
}

#[test]
fn of_two_equally_old_chats_the_first_goes() {
    let mut cache = CodeCache::new();
    for n in 0..CACHE_MAX_CHATS {
        cache.store(&format!("chat{n}"), chat("t", 5));
    }
    cache.store("fresh", chat("new", 9));
    assert_eq!(cache.chats.len(), CACHE_MAX_CHATS);
    assert_eq!(cache.chats[0].0, "chat1");
}

#[test]
fn a_chat_with_no_id_is_not_cached() {
    let mut cache = CodeCache::new();
    write_cache(&mut cache, None, "t", &None, &vec![reply(1)], Vec::new(), 5);
    assert!(cache.chats.is_empty());
}

#[test]
fn a_written_chat_carries_its_latest_items_and_the_time() {
    let mut cache = CodeCache::new();
    let items: Vec<ChatItem> = (0..CACHE_MAX_ITEMS + 1).map(reply).collect();
    let marks = vec![("a.rs".to_string(), 3)];
    write_cache(&mut cache, Some("c1"), "Fix it", &Some("s-1".to_string()), &items, marks.clone(), 77);
    assert_eq!(cache.chats.len(), 1);
    let (id, entry) = &cache.chats[0];
    assert_eq!(id, "c1");
    assert_eq!(entry.title, "Fix it");
    assert_eq!(entry.session_id.as_deref(), Some("s-1"));
    assert_eq!(entry.items.len(), CACHE_MAX_ITEMS);
    assert_eq!(entry.items[0], reply(1));
    assert_eq!(entry.diff_seen, marks);
    assert_eq!(entry.updated, 77);
}

#[test]
fn a_deleted_chat_leaves_the_cache() {
    let mut cache = CodeCache::new();
    cache.store("a", chat("first", 1));
    cache.store("b", chat("other", 2));
    cache.forget("a");
    assert_eq!(cache.chats.len(), 1);
    assert_eq!(cache.chats[0].0, "b");
    cache.forget("missing");
    assert_eq!(cache.chats.len(), 1);
}
