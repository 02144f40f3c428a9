//! Component-level tests: the bridge's FIFO and backpressure behaviour,
//! the listener's single-resolution guarantee, and the cache's
//! write-once metadata discipline.

use chat_overlay::bridge::ChannelBridge;
use chat_overlay::emote::EmoteCache;
use chat_overlay::event::{ChatEvent, RawEmote, RawMessage};
use chat_overlay::listener::{begin_message, finish_message};
use chat_overlay::session::SessionTable;

fn event(sender: &str, text: &str) -> ChatEvent {
    ChatEvent { sender: sender.to_string(), text: text.to_string(), emotes: Vec::new() }
}

fn raw(sender: &str, text: &str, tokens: &[&str]) -> RawMessage {
    RawMessage {
        sender: sender.to_string(),
        text: text.to_string(),
        emotes: tokens
            .iter()
            .map(|t| RawEmote { token: t.to_string(), start: 0, end: t.len() })
            .collect(),
    }
}

#[test]
fn bridge_delivers_in_fifo_order() {
    let mut bridge = ChannelBridge::new(8);
    assert!(bridge.try_send(event("a", "1")));
    assert!(bridge.try_send(event("b", "2")));
    assert!(bridge.try_send(event("c", "3")));
    let first = bridge.try_receive().unwrap();
    let second = bridge.try_receive().unwrap();
    let third = bridge.try_receive().unwrap();
    assert_eq!(first.text, "1");
    assert_eq!(second.text, "2");
    assert_eq!(third.text, "3");
    assert!(bridge.try_receive().is_none());
}

#[test]
fn bridge_full_send_refused_then_resumes_in_order() {
    let mut bridge = ChannelBridge::new(2);
    assert!(bridge.try_send(event("a", "1")));
    assert!(bridge.try_send(event("a", "2")));
    assert!(bridge.is_full());
    // Capacity reached: the sender is refused (and would suspend).
    assert!(!bridge.try_send(event("a", "3")));
    // The consumer drains one slot; the retried send now succeeds and the
    // delayed event is delivered after everything sent before it.
    assert_eq!(bridge.try_receive().unwrap().text, "1");
    assert!(bridge.try_send(event("a", "3")));
    let drained = bridge.drain();
    assert_eq!(drained.len(), 2);
    assert_eq!(drained[0].text, "2");
    assert_eq!(drained[1].text, "3");
    assert_eq!(bridge.len(), 0);
}

#[test]
fn same_token_across_rapid_messages_resolves_once() {
    let mut cache = EmoteCache::new();
    let msg1 = raw("alice", "PogChamp hi", &["PogChamp"]);
    let msg2 = raw("alice", "PogChamp again", &["PogChamp"]);

    let to_resolve = begin_message(&mut cache, &msg1);
    assert_eq!(to_resolve, vec!["PogChamp".to_string()]);
    // The resolver answers with the image URL.
    cache.register_url(&"PogChamp".to_string(), &"https://cdn.example/pog.png".to_string());
    let ev1 = finish_message(&cache, &msg1);

    // The second message triggers no second resolution.
    let to_resolve = begin_message(&mut cache, &msg2);
    assert!(to_resolve.is_empty());
    let ev2 = finish_message(&cache, &msg2);

    // Both messages render the emote.
    assert_eq!(ev1.emotes[0].url.as_deref(), Some("https://cdn.example/pog.png"));
    assert_eq!(ev2.emotes[0].url.as_deref(), Some("https://cdn.example/pog.png"));
}

#[test]
fn duplicate_token_within_one_message_resolves_once() {
    let mut cache = EmoteCache::new();
    let msg = raw("alice", "Kappa Kappa", &["Kappa", "Kappa"]);
    let to_resolve = begin_message(&mut cache, &msg);
    assert_eq!(to_resolve, vec!["Kappa".to_string()]);
}

#[test]
fn failed_resolution_leaves_plain_text_and_no_retry() {
    let mut cache = EmoteCache::new();
    let msg = raw("alice", "BrokenEmote", &["BrokenEmote"]);
    let to_resolve = begin_message(&mut cache, &msg);
    assert_eq!(to_resolve.len(), 1);
    // The fetch failed: no URL is registered; the token stays seen.
    let ev = finish_message(&cache, &msg);
    assert!(ev.emotes[0].url.is_none());
    assert!(ev.emotes[0].dims.is_none());
    // The next sighting does not ask to resolve again (no fetch storm).
    let again = begin_message(&mut cache, &raw("bob", "BrokenEmote", &["BrokenEmote"]));
    assert!(again.is_empty());
}

#[test]
fn dimensions_recorded_at_most_once() {
    let mut cache = EmoteCache::new();
    let tok = "Kappa".to_string();
    cache.register_url(&tok, &"https://cdn.example/kappa.png".to_string());
    assert!(cache.get(&tok).unwrap().dims.is_none());
    cache.record_resolution(&tok, 28, 25);
    let d = cache.get(&tok).unwrap().dims.unwrap();
    assert_eq!((d.width, d.height), (28, 25));
    // A second report never overwrites the first.
    cache.record_resolution(&tok, 999, 999);
    let d = cache.get(&tok).unwrap().dims.unwrap();
    assert_eq!((d.width, d.height), (28, 25));
}

#[test]
fn lookup_or_register_reports_new_only_once() {
    let mut cache = EmoteCache::new();
    let tok = "PogChamp".to_string();
    assert!(cache.lookup_or_register(&tok));
    assert!(!cache.lookup_or_register(&tok));
    assert!(!cache.lookup_or_register(&tok));
    assert!(cache.lookup_or_register(&"Kappa".to_string()));
}

#[test]
fn seeding_an_emote_set_fills_the_cache_without_marking_seen() {
    let mut cache = EmoteCache::new();
    cache.register_emote_set(&vec![
        ("catJAM".to_string(), "https://cdn.example/catjam.webp".to_string()),
        ("catJAM".to_string(), "https://cdn.example/ignored.webp".to_string()),
    ]);
    assert_eq!(cache.get(&"catJAM".to_string()).unwrap().url, "https://cdn.example/catjam.webp");
    assert!(!cache.is_seen(&"catJAM".to_string()));
}

#[test]
fn session_table_refresh_is_idempotent_insert() {
    let mut table = SessionTable::new();
    assert!(table.refresh(&"alice".to_string(), 1).is_none());
    let avatar = table.create(&"alice".to_string(), 1);
    assert_eq!(avatar, 0);
    assert_eq!(table.len(), 1);
    // Refreshing finds the same single session, never a second one.
    assert_eq!(table.refresh(&"alice".to_string(), 5), Some(0));
    assert_eq!(table.refresh(&"alice".to_string(), 9), Some(0));
    assert_eq!(table.len(), 1);
}

#[test]
fn eviction_respects_the_threshold_boundary() {
    let mut table = SessionTable::new();
    table.create(&"alice".to_string(), 100);
    table.create(&"bob".to_string(), 100);
    table.refresh(&"bob".to_string(), 150);
    // At tick 199, alice is 99 ticks idle: nobody expires with threshold 100.
    assert!(table.evict_expired(199, 100).is_empty());
    // At tick 200 alice reaches the threshold; bob (refreshed at 150) stays.
    let removed = table.evict_expired(200, 100);
    assert_eq!(removed, vec![0]);
    assert_eq!(table.len(), 1);
    assert_eq!(table.refresh(&"bob".to_string(), 201), Some(1));
}
