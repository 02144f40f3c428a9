//! End-to-end scenarios over the consumer tick: session creation, emote
//! rendering, eviction, backpressure and deferred visual finalization.

use chat_overlay::consumer::{consumer_tick, Action, ConsumerState, Viewport};
use chat_overlay::event::{ChatEvent, EmoteInstance};
use chat_overlay::visual::{AssetLoad, VisualState};

fn plain_event(sender: &str, text: &str) -> ChatEvent {
    ChatEvent { sender: sender.to_string(), text: text.to_string(), emotes: Vec::new() }
}

fn emote_event(sender: &str, text: &str, token: &str, url: &str) -> ChatEvent {
    ChatEvent {
        sender: sender.to_string(),
        text: text.to_string(),
        emotes: vec![EmoteInstance {
            token: token.to_string(),
            start: 0,
            end: token.len(),
            url: Some(url.to_string()),
            dims: None,
        }],
    }
}

const VP: Option<Viewport> = Some(Viewport { width: 1920, height: 1080 });

#[test]
fn alice_no_emotes_one_session_one_bubble_no_cache_writes() {
    let mut state = ConsumerState::new();
    let actions = consumer_tick(
        &mut state,
        vec![plain_event("alice", "hello")],
        VP,
        &Vec::new(),
        1,
        600,
    );
    assert_eq!(state.sessions.len(), 1);
    assert_eq!(actions.len(), 2);
    // Spawn position formula: handle 0 lands at x = (0 % 1920) * 61 % 1920
    // and y = 25 above the bottom edge.
    assert!(matches!(actions[0], Action::SpawnAvatar { handle: 0, x: 0, y: 25 }));
    match &actions[1] {
        Action::AttachBubble { handle, text, emotes } => {
            assert_eq!(*handle, 0);
            assert_eq!(text, "hello");
            assert!(emotes.is_empty());
        }
        _ => panic!("expected a bubble"),
    }
    // No emote metadata was written by an emote-less message.
    assert!(state.cache.get(&"hello".to_string()).is_none());
    assert!(!state.cache.is_seen(&"hello".to_string()));
}

#[test]
fn second_event_refreshes_instead_of_duplicating() {
    let mut state = ConsumerState::new();
    consumer_tick(&mut state, vec![plain_event("alice", "one")], VP, &Vec::new(), 1, 600);
    let actions = consumer_tick(
        &mut state,
        vec![plain_event("alice", "two")],
        VP,
        &Vec::new(),
        2,
        600,
    );
    // Still exactly one session, no second spawn, bubble on the same avatar.
    assert_eq!(state.sessions.len(), 1);
    assert_eq!(actions.len(), 1);
    assert!(matches!(actions[0], Action::AttachBubble { handle: 0, .. }));
}

#[test]
fn two_alice_events_in_one_tick_make_one_session() {
    let mut state = ConsumerState::new();
    let actions = consumer_tick(
        &mut state,
        vec![plain_event("alice", "a"), plain_event("alice", "b")],
        VP,
        &Vec::new(),
        1,
        600,
    );
    assert_eq!(state.sessions.len(), 1);
    let spawns = actions
        .iter()
        .filter(|a| matches!(a, Action::SpawnAvatar { .. }))
        .count();
    assert_eq!(spawns, 1);
    let bubbles = actions
        .iter()
        .filter(|a| matches!(a, Action::AttachBubble { handle: 0, .. }))
        .count();
    assert_eq!(bubbles, 2);
}

#[test]
fn bob_idle_past_threshold_is_evicted_and_despawned_once() {
    let mut state = ConsumerState::new();
    consumer_tick(&mut state, vec![plain_event("bob", "hi")], VP, &Vec::new(), 10, 100);
    assert_eq!(state.sessions.len(), 1);

    // One tick short of the threshold: still active.
    let actions = consumer_tick(&mut state, Vec::new(), VP, &Vec::new(), 109, 100);
    assert_eq!(state.sessions.len(), 1);
    assert_eq!(actions.len(), 0);

    // At the threshold: evicted, avatar despawned exactly once.
    let actions = consumer_tick(&mut state, Vec::new(), VP, &Vec::new(), 110, 100);
    assert_eq!(state.sessions.len(), 0);
    let despawns: Vec<&Action> = actions
        .iter()
        .filter(|a| matches!(a, Action::DespawnAvatar { .. }))
        .collect();
    assert_eq!(despawns.len(), 1);
    assert!(matches!(despawns[0], Action::DespawnAvatar { handle: 0 }));

    // No resurrection: a later event makes a brand-new session and avatar.
    let actions = consumer_tick(
        &mut state,
        vec![plain_event("bob", "back")],
        VP,
        &Vec::new(),
        111,
        100,
    );
    // Fresh handle 1, scattered by the 61-pixel stride: x = 61.
    assert!(matches!(actions[0], Action::SpawnAvatar { handle: 1, x: 61, y: 25 }));
}

#[test]
fn missing_viewport_defers_spawn_to_next_tick() {
    let mut state = ConsumerState::new();
    let actions = consumer_tick(
        &mut state,
        vec![plain_event("alice", "early")],
        None,
        &Vec::new(),
        1,
        600,
    );
    assert_eq!(actions.len(), 0);
    assert_eq!(state.sessions.len(), 0);
    assert_eq!(state.deferred.len(), 1);

    // Next tick the viewport is known: the deferred event is processed.
    let actions = consumer_tick(&mut state, Vec::new(), VP, &Vec::new(), 2, 600);
    assert_eq!(state.deferred.len(), 0);
    assert_eq!(state.sessions.len(), 1);
    assert!(matches!(actions[0], Action::SpawnAvatar { handle: 0, .. }));
    assert!(matches!(actions[1], Action::AttachBubble { handle: 0, .. }));
}

#[test]
fn event_metadata_is_merged_into_render_cache_first_write_wins() {
    let mut state = ConsumerState::new();
    consumer_tick(
        &mut state,
        vec![emote_event("alice", "PogChamp", "PogChamp", "https://cdn.example/pog.png")],
        VP,
        &Vec::new(),
        1,
        600,
    );
    let meta = state.cache.get(&"PogChamp".to_string()).expect("metadata merged");
    assert_eq!(meta.url, "https://cdn.example/pog.png");

    // A later event with a different URL for the same token changes nothing.
    consumer_tick(
        &mut state,
        vec![emote_event("bob", "PogChamp", "PogChamp", "https://cdn.example/other.png")],
        VP,
        &Vec::new(),
        2,
        600,
    );
    let meta = state.cache.get(&"PogChamp".to_string()).unwrap();
    assert_eq!(meta.url, "https://cdn.example/pog.png");
}

#[test]
fn avatar_asset_loading_two_ticks_late_finalizes_exactly_once() {
    let mut state = ConsumerState::new();
    // Tick 3: a visual is spawned awaiting its asset.
    state.visuals.spawn_pending(7);
    let actions = consumer_tick(&mut state, Vec::new(), VP, &Vec::new(), 3, 600);
    assert_eq!(actions.len(), 0);
    assert_eq!(state.visuals.get(0).state, VisualState::AwaitingAsset);

    // Tick 4: still not loaded — invisible and unscaled.
    let actions = consumer_tick(&mut state, Vec::new(), VP, &Vec::new(), 4, 600);
    assert_eq!(actions.len(), 0);
    assert_eq!(state.visuals.get(0).state, VisualState::AwaitingAsset);

    // Tick 5: the image (92 x 23) is ready; width scales to keep aspect
    // ratio at the 46-pixel target height: 92 * 46 / 23 = 184.
    let loads = vec![AssetLoad { id: 7, width: 92, height: 23 }];
    let actions = consumer_tick(&mut state, Vec::new(), VP, &loads, 5, 600);
    assert_eq!(actions.len(), 1);
    assert!(matches!(actions[0], Action::FinalizeVisual { id: 7, width: 184 }));
    assert_eq!(state.visuals.get(0).state, VisualState::Ready { width: 184 });

    // Tick 6: finalization is idempotent — no further action, no change.
    let actions = consumer_tick(&mut state, Vec::new(), VP, &loads, 6, 600);
    assert_eq!(actions.len(), 0);
    assert_eq!(state.visuals.get(0).state, VisualState::Ready { width: 184 });
}
