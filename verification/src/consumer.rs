//! The per-frame consumer step: drains the bridge's events, merges their
//! emote metadata into the render-side cache view, refreshes or creates
//! user sessions (deferring spawns while no viewport is known), evicts
//! sessions past the inactivity threshold, and finalizes visuals whose
//! assets have loaded — emitting, for the rendering engine, the exact list
//! of actions this tick requires.

use vstd::prelude::*;
use crate::emote::{EmoteCache, EmoteMeta};
use crate::event::{ChatEvent, EmoteInstance};
use crate::session::{SessionTable, UserSession, evict_model, has_id, id_index, map_of_rows};
use crate::visual::{AssetLoad, FinalizeAction, VisualRegistry, sweep_model};

verus! {

/// Pixels an avatar is spawned above the bottom edge of the viewport.
pub const BOTTOM_MARGIN: u32 = 25;

/// The viewport the rendering engine reports, in logical pixels.
#[derive(Clone, Copy, PartialEq, Eq, Debug, Structural)]
pub struct Viewport {
    pub width: u32,
    pub height: u32,
}

/// One instruction to the rendering engine, produced by a consumer tick.
pub enum Action {
    SpawnAvatar { handle: u64, x: u32, y: u32 },
    AttachBubble { handle: u64, text: String, emotes: Vec<EmoteInstance> },
    DespawnAvatar { handle: u64 },
    FinalizeVisual { id: u64, width: u64 },
}

/// A viewport is usable for spawning once it has positive extent.
pub open spec fn usable(vp: Option<Viewport>) -> bool {
    vp is Some && vp.unwrap().width > 0 && vp.unwrap().height > 0
}

/// Horizontal spawn position: a fixed stride of the avatar handle,
/// wrapped into the viewport, so new avatars scatter over the visible
/// width deterministically.
pub open spec fn spawn_x(vp: Viewport, handle: u64) -> int {
    ((handle as int % vp.width as int) * 61) % vp.width as int
}

/// Vertical spawn position: just above the bottom edge.
pub open spec fn spawn_y(vp: Viewport) -> int {
    if vp.height < BOTTOM_MARGIN {
        vp.height as int
    } else {
        BOTTOM_MARGIN as int
    }
}

/// The bubble attached for one event, on the avatar `handle`.
pub open spec fn bubble_action(handle: u64, ev: ChatEvent) -> Action {
    Action::AttachBubble { handle, text: ev.text, emotes: ev.emotes }
}

/// What merging one event-borne emote occurrence does to the render
/// cache: an occurrence with a URL creates the token's entry if none
/// exists (first write wins); occurrences without metadata change nothing.
pub open spec fn merge_one(m: Map<Seq<char>, EmoteMeta>, e: EmoteInstance) -> Map<
    Seq<char>,
    EmoteMeta,
> {
    if e.url is Some && !m.contains_key(e.token@) {
        m.insert(e.token@, EmoteMeta { token: e.token, url: e.url.unwrap(), dims: e.dims })
    } else {
        m
    }
}

/// Merging a whole occurrence list, left to right.
pub open spec fn merge_metas(m: Map<Seq<char>, EmoteMeta>, es: Seq<EmoteInstance>) -> Map<
    Seq<char>,
    EmoteMeta,
>
    decreases es.len(),
{
    if es.len() == 0 {
        m
    } else {
        merge_metas(merge_one(m, es[0]), es.drop_first())
    }
}

/// Merging every event of a tick, in delivery order.
pub open spec fn merge_events(m: Map<Seq<char>, EmoteMeta>, evs: Seq<ChatEvent>) -> Map<
    Seq<char>,
    EmoteMeta,
>
    decreases evs.len(),
{
    if evs.len() == 0 {
        m
    } else {
        merge_events(merge_metas(m, evs[0].emotes@), evs.drop_first())
    }
}

/// The session-table and action outcome of processing a tick's events.
pub ghost struct EventsOutcome {
    pub rows: Seq<UserSession>,
    pub next: u64,
    pub deferred: Seq<ChatEvent>,
    pub actions: Seq<Action>,
}

/// What processing the tick's events does, event by event in delivery
/// order: a known identity is refreshed and gets a bubble on its existing
/// avatar; an unknown identity, while a viewport is known, gets a fresh
/// avatar spawned inside the viewport, a new session, and the bubble;
/// with no usable viewport the event is deferred to the next tick.
pub open spec fn apply_events(
    rows: Seq<UserSession>,
    next: u64,
    evs: Seq<ChatEvent>,
    vp: Option<Viewport>,
    now: u64,
) -> EventsOutcome
    decreases evs.len(),
{
    if evs.len() == 0 {
        EventsOutcome { rows, next, deferred: Seq::empty(), actions: Seq::empty() }
    } else {
        let ev = evs[0];
        if has_id(rows, ev.sender@) {
            let i = id_index(rows, ev.sender@);
            let s = rows[i];
            let rows2 = rows.update(
                i,
                UserSession { identity: s.identity, avatar: s.avatar, last_activity: now },
            );
            let rest = apply_events(rows2, next, evs.drop_first(), vp, now);
            EventsOutcome {
                rows: rest.rows,
                next: rest.next,
                deferred: rest.deferred,
                actions: seq![bubble_action(s.avatar, ev)] + rest.actions,
            }
        } else if usable(vp) {
            let v = vp.unwrap();
            let rows2 = rows.push(
                UserSession { identity: ev.sender, avatar: next, last_activity: now },
            );
            let rest = apply_events(rows2, (next + 1) as u64, evs.drop_first(), vp, now);
            EventsOutcome {
                rows: rest.rows,
                next: rest.next,
                deferred: rest.deferred,
                actions: seq![
                    Action::SpawnAvatar {
                        handle: next,
                        x: spawn_x(v, next) as u32,
                        y: spawn_y(v) as u32,
                    },
                    bubble_action(next, ev),
                ] + rest.actions,
            }
        } else {
            let rest = apply_events(rows, next, evs.drop_first(), vp, now);
            EventsOutcome {
                rows: rest.rows,
                next: rest.next,
                deferred: seq![ev] + rest.deferred,
                actions: rest.actions,
            }
        }
    }
}

/// Everything the consumer thread owns.
pub struct ConsumerState {
    pub cache: EmoteCache,
    pub sessions: SessionTable,
    pub visuals: VisualRegistry,
    pub deferred: Vec<ChatEvent>,
}

impl ConsumerState {
    pub open spec fn inv(&self) -> bool {
        self.cache.inv() && self.sessions.inv()
    }

    pub fn new() -> (s: ConsumerState)
        ensures
            s.inv(),
            s.cache.metas() == Map::<Seq<char>, EmoteMeta>::empty(),
            s.sessions.rows() == Seq::<UserSession>::empty(),
            s.sessions.next_handle_val() == 0,
            s.sessions.clock_val() == 0,
            s.visuals.rows() == Seq::<crate::visual::PendingVisual>::empty(),
            s.deferred@ == Seq::<ChatEvent>::empty(),
    {
        ConsumerState {
            cache: EmoteCache::new(),
            sessions: SessionTable::new(),
            visuals: VisualRegistry::new(),
            deferred: Vec::new(),
        }
    }
}

/// Merges the metadata one event carries into the render cache view,
/// first write per token winning, never touching the seen set.
pub fn merge_event_metadata(cache: &mut EmoteCache, emotes: &Vec<EmoteInstance>)
    requires
        old(cache).inv(),
    ensures
        final(cache).inv(),
        final(cache).seen_set() == old(cache).seen_set(),
        final(cache).metas() == merge_metas(old(cache).metas(), emotes@),
{
    let ghost es = emotes@;
    let ghost m0 = cache.metas();
    let mut i: usize = 0;
    proof {
        assert(es.skip(0) =~= es);
    }
    while i < emotes.len()
        invariant
            0 <= i <= es.len(),
            es == emotes@,
            cache.inv(),
            cache.seen_set() == old(cache).seen_set(),
            merge_metas(m0, es) == merge_metas(cache.metas(), es.skip(i as int)),
        decreases es.len() - i,
    {
        proof {
            assert(es.skip(i as int)[0] == es[i as int]);
            assert(es.skip(i as int).drop_first() =~= es.skip(i as int + 1));
        }
        let ghost pre = cache.metas();
        let e = &emotes[i];
        match &e.url {
            Some(u) => {
                cache.merge_meta(&e.token, u, e.dims);
            },
            None => {},
        }
        proof {
            assert(cache.metas() == merge_one(pre, es[i as int]));
        }
        i = i + 1;
    }
    proof {
        assert(es.skip(es.len() as int) =~= Seq::<EmoteInstance>::empty());
    }
}

/// One consumer tick. In order: every event left deferred from earlier
/// ticks, then every event drained this tick, is merged into the render
/// cache and applied to the session table (`apply_events`); then sessions
/// past the inactivity threshold are evicted; then visuals whose assets
/// have loaded are finalized. The returned actions are exactly the
/// spawns, bubbles, despawns and finalizations this tick requires, in
/// that order.
pub fn consumer_tick(
    state: &mut ConsumerState,
    events: Vec<ChatEvent>,
    viewport: Option<Viewport>,
    loads: &Vec<AssetLoad>,
    now: u64,
    threshold: u64,
) -> (actions: Vec<Action>)
    requires
        old(state).inv(),
        now >= old(state).sessions.clock_val(),
        old(state).sessions.next_handle_val() + old(state).deferred@.len() + events@.len()
            < u64::MAX,
    ensures
        final(state).inv(),
        final(state).sessions.clock_val() == now,
        final(state).cache.seen_set() == old(state).cache.seen_set(),
        final(state).cache.metas() == merge_events(
            old(state).cache.metas(),
            old(state).deferred@ + events@,
        ),
        final(state).sessions.rows() == evict_model(
            apply_events(
                old(state).sessions.rows(),
                old(state).sessions.next_handle_val(),
                old(state).deferred@ + events@,
                viewport,
                now,
            ).rows,
            now,
            threshold,
        ).0,
        final(state).sessions.next_handle_val() == apply_events(
            old(state).sessions.rows(),
            old(state).sessions.next_handle_val(),
            old(state).deferred@ + events@,
            viewport,
            now,
        ).next,
        final(state).deferred@ == apply_events(
            old(state).sessions.rows(),
            old(state).sessions.next_handle_val(),
            old(state).deferred@ + events@,
            viewport,
            now,
        ).deferred,
        final(state).visuals.rows() == sweep_model(old(state).visuals.rows(), loads@).0,
        actions@ == apply_events(
            old(state).sessions.rows(),
            old(state).sessions.next_handle_val(),
            old(state).deferred@ + events@,
            viewport,
            now,
        ).actions + evict_model(
            apply_events(
                old(state).sessions.rows(),
                old(state).sessions.next_handle_val(),
                old(state).deferred@ + events@,
                viewport,
                now,
            ).rows,
            now,
            threshold,
        ).1.map_values(|h: u64| (Action::DespawnAvatar { handle: h })) + sweep_model(
            old(state).visuals.rows(),
            loads@,
        ).1.map_values(|f: FinalizeAction| (Action::FinalizeVisual { id: f.id, width: f.width })),
{
    let ghost rows0 = state.sessions.rows();
    let ghost next0 = state.sessions.next_handle_val();
    let ghost m0 = state.cache.metas();
    let mut evs: Vec<ChatEvent> = Vec::new();
    core::mem::swap(&mut evs, &mut state.deferred);
    let mut incoming = events;
    evs.append(&mut incoming);
    let ghost all0 = evs@;
    let ghost a_total = apply_events(rows0, next0, all0, viewport, now);

    let vp_ok = match viewport {
        Some(v) => v.width > 0 && v.height > 0,
        None => false,
    };
    let mut actions: Vec<Action> = Vec::new();
    proof {
        assert(state.deferred@ =~= Seq::<ChatEvent>::empty());
        assert(state.deferred@ + a_total.deferred =~= a_total.deferred);
        assert(actions@ + a_total.actions =~= a_total.actions);
    }
    while evs.len() > 0
        invariant
            state.cache.inv(),
            state.sessions.inv(),
            state.sessions.clock_val() <= now,
            state.cache.seen_set() == old(state).cache.seen_set(),
            state.visuals == old(state).visuals,
            merge_events(m0, all0) == merge_events(state.cache.metas(), evs@),
            vp_ok == usable(viewport),
            state.sessions.next_handle_val() + evs@.len() <= next0 + all0.len(),
            next0 + all0.len() < u64::MAX,
            a_total == apply_events(rows0, next0, all0, viewport, now),
            a_total.rows == apply_events(
                state.sessions.rows(),
                state.sessions.next_handle_val(),
                evs@,
                viewport,
                now,
            ).rows,
            a_total.next == apply_events(
                state.sessions.rows(),
                state.sessions.next_handle_val(),
                evs@,
                viewport,
                now,
            ).next,
            a_total.deferred == state.deferred@ + apply_events(
                state.sessions.rows(),
                state.sessions.next_handle_val(),
                evs@,
                viewport,
                now,
            ).deferred,
            a_total.actions == actions@ + apply_events(
                state.sessions.rows(),
                state.sessions.next_handle_val(),
                evs@,
                viewport,
                now,
            ).actions,
        decreases evs@.len(),
    {
        let ghost pre_evs = evs@;
        let ghost cur_rows = state.sessions.rows();
        let ghost cur_next = state.sessions.next_handle_val();
        let ghost r_pre = apply_events(cur_rows, cur_next, pre_evs, viewport, now);
        let ev = evs.remove(0);
        proof {
            assert(pre_evs[0] == ev);
            assert(evs@ =~= pre_evs.drop_first());
        }
        let ChatEvent { sender, text, emotes } = ev;
        let ghost mpre = state.cache.metas();
        merge_event_metadata(&mut state.cache, &emotes);
        proof {
            assert(merge_events(mpre, pre_evs) == merge_events(
                merge_metas(mpre, pre_evs[0].emotes@),
                evs@,
            ));
        }
        match state.sessions.refresh(&sender, now) {
            Some(avatar) => {
                proof {
                    assert(map_of_rows(cur_rows).contains_key(sender@));
                    assert(has_id(cur_rows, sender@));
                }
                let ghost i = id_index(cur_rows, sender@);
                let ghost s = cur_rows[i];
                let ghost apre = actions@;
                proof {
                    assert(avatar == s.avatar);
                    assert(state.sessions.rows() == cur_rows.update(
                        i,
                        (UserSession { identity: s.identity, avatar: s.avatar, last_activity: now }),
                    ));
                }
                actions.push(Action::AttachBubble { handle: avatar, text, emotes });
                proof {
                    let r_next = apply_events(
                        state.sessions.rows(),
                        cur_next,
                        evs@,
                        viewport,
                        now,
                    );
                    assert(r_pre.actions == seq![bubble_action(s.avatar, pre_evs[0])]
                        + r_next.actions);
                    assert(actions@ =~= apre.push(bubble_action(s.avatar, pre_evs[0])));
                    assert(apre + (seq![bubble_action(s.avatar, pre_evs[0])] + r_next.actions)
                        =~= actions@ + r_next.actions);
                }
            },
            None => {
                proof {
                    assert(!map_of_rows(cur_rows).contains_key(sender@));
                    assert(!has_id(cur_rows, sender@));
                }
                if vp_ok {
                    let v = viewport.unwrap();
                    let avatar = state.sessions.create(&sender, now);
                    let vw = v.width as u64;
                    let x64 = ((avatar % vw) * 61) % vw;
                    let x = x64 as u32;
                    let y = if v.height < BOTTOM_MARGIN {
                        v.height
                    } else {
                        BOTTOM_MARGIN
                    };
                    let ghost apre = actions@;
                    proof {
                        assert(x as int == spawn_x(v, avatar));
                        assert(y as int == spawn_y(v));
                    }
                    actions.push(Action::SpawnAvatar { handle: avatar, x, y });
                    actions.push(Action::AttachBubble { handle: avatar, text, emotes });
                    proof {
                        let r_next = apply_events(
                            state.sessions.rows(),
                            state.sessions.next_handle_val(),
                            evs@,
                            viewport,
                            now,
                        );
                        let spawn = (Action::SpawnAvatar {
                            handle: cur_next,
                            x: spawn_x(v, cur_next) as u32,
                            y: spawn_y(v) as u32,
                        });
                        assert(r_pre.actions == seq![spawn, bubble_action(cur_next, pre_evs[0])]
                            + r_next.actions);
                        assert(actions@ =~= apre.push(spawn).push(
                            bubble_action(cur_next, pre_evs[0]),
                        ));
                        assert(apre + (seq![spawn, bubble_action(cur_next, pre_evs[0])]
                            + r_next.actions) =~= actions@ + r_next.actions);
                    }
                } else {
                    let ghost dpre = state.deferred@;
                    state.deferred.push(ChatEvent { sender, text, emotes });
                    proof {
                        let r_next = apply_events(cur_rows, cur_next, evs@, viewport, now);
                        assert(state.deferred@.last() == pre_evs[0]);
                        assert(r_pre.deferred == seq![pre_evs[0]] + r_next.deferred);
                        assert(state.deferred@ =~= dpre.push(pre_evs[0]));
                        assert(dpre + (seq![pre_evs[0]] + r_next.deferred) =~= state.deferred@
                            + r_next.deferred);
                    }
                }
            },
        }
    }
    proof {
        assert(evs@ =~= Seq::<ChatEvent>::empty());
        assert(a_total.deferred =~= state.deferred@ + Seq::<ChatEvent>::empty());
        assert(a_total.deferred =~= state.deferred@);
        assert(a_total.actions =~= actions@ + Seq::<Action>::empty());
        assert(a_total.actions =~= actions@);
        assert(merge_events(state.cache.metas(), evs@) == state.cache.metas());
    }
    let removed = state.sessions.evict_expired(now, threshold);
    let ghost acts1 = actions@;
    let mut k: usize = 0;
    while k < removed.len()
        invariant
            0 <= k <= removed@.len(),
            actions@.len() == acts1.len() + k,
            forall|j: int| 0 <= j < acts1.len() ==> actions@[j] == acts1[j],
            forall|j: int|
                0 <= j < k ==> actions@[acts1.len() + j] == (Action::DespawnAvatar {
                    handle: removed@[j],
                }),
        decreases removed@.len() - k,
    {
        actions.push(Action::DespawnAvatar { handle: removed[k] });
        k = k + 1;
    }
    proof {
        assert(actions@ =~= acts1 + removed@.map_values(
            |h: u64| (Action::DespawnAvatar { handle: h }),
        ));
    }
    let fins = state.visuals.sweep(loads);
    let ghost acts2 = actions@;
    let mut k2: usize = 0;
    while k2 < fins.len()
        invariant
            0 <= k2 <= fins@.len(),
            actions@.len() == acts2.len() + k2,
            forall|j: int| 0 <= j < acts2.len() ==> actions@[j] == acts2[j],
            forall|j: int|
                0 <= j < k2 ==> actions@[acts2.len() + j] == (Action::FinalizeVisual {
                    id: fins@[j].id,
                    width: fins@[j].width,
                }),
        decreases fins@.len() - k2,
    {
        actions.push(Action::FinalizeVisual { id: fins[k2].id, width: fins[k2].width });
        k2 = k2 + 1;
    }
    proof {
        assert(actions@ =~= acts2 + fins@.map_values(
            |f: FinalizeAction| (Action::FinalizeVisual { id: f.id, width: f.width }),
        ));
        assert(actions@ =~= a_total.actions + removed@.map_values(
            |h: u64| (Action::DespawnAvatar { handle: h }),
        ) + fins@.map_values(
            |f: FinalizeAction| (Action::FinalizeVisual { id: f.id, width: f.width }),
        ));
    }
    actions
}

} // verus!
