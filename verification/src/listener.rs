//! Chat listener logic: turning a raw incoming chat line into resolution
//! work and a normalized event. Processing is split in two verified steps
//! around the (external, asynchronous) metadata fetch: `begin_message`
//! decides which tokens need resolving and marks them seen, and
//! `finish_message` builds the enriched event from whatever the cache then
//! holds.

use vstd::prelude::*;
use crate::emote::{EmoteCache, EmoteMeta};
use crate::event::{ChatEvent, EmoteInstance, RawEmote, RawMessage};

verus! {

/// Every token occurring in `es`.
pub open spec fn raw_tokens(es: Seq<RawEmote>) -> Set<Seq<char>> {
    Set::new(|t: Seq<char>| exists|i: int| 0 <= i < es.len() && es[i].token@ == t)
}

/// The tokens of `es` not in `seen`, in first-occurrence order, each at
/// most once: exactly the resolution work one message creates.
pub open spec fn unseen_tokens(seen: Set<Seq<char>>, es: Seq<RawEmote>) -> Seq<Seq<char>>
    decreases es.len(),
{
    if es.len() == 0 {
        Seq::empty()
    } else if seen.contains(es[0].token@) {
        unseen_tokens(seen, es.drop_first())
    } else {
        seq![es[0].token@] + unseen_tokens(seen.insert(es[0].token@), es.drop_first())
    }
}

/// A token already seen is never handed out for resolution again.
pub proof fn lemma_unseen_excludes_seen(seen: Set<Seq<char>>, es: Seq<RawEmote>, t: Seq<char>)
    requires
        seen.contains(t),
    ensures
        !unseen_tokens(seen, es).contains(t),
    decreases es.len(),
{
    if es.len() > 0 {
        if seen.contains(es[0].token@) {
            lemma_unseen_excludes_seen(seen, es.drop_first(), t);
        } else {
            lemma_unseen_excludes_seen(seen.insert(es[0].token@), es.drop_first(), t);
            assert(unseen_tokens(seen, es)[0] == es[0].token@);
            assert forall|k: int|
                0 <= k < unseen_tokens(seen, es).len() implies unseen_tokens(seen, es)[k]
                != t by {
                if k >= 1 {
                    assert(unseen_tokens(seen, es)[k] == unseen_tokens(
                        seen.insert(es[0].token@),
                        es.drop_first(),
                    )[k - 1]);
                }
            }
        }
    }
}

/// One message never asks for the same token twice: the resolution list
/// is free of duplicates.
pub proof fn lemma_unseen_distinct(seen: Set<Seq<char>>, es: Seq<RawEmote>)
    ensures
        forall|i: int, j: int|
            0 <= i < j < unseen_tokens(seen, es).len() ==> unseen_tokens(seen, es)[i]
                != unseen_tokens(seen, es)[j],
    decreases es.len(),
{
    if es.len() > 0 {
        if seen.contains(es[0].token@) {
            lemma_unseen_distinct(seen, es.drop_first());
            assert forall|i: int, j: int|
                0 <= i < j < unseen_tokens(seen, es).len() implies unseen_tokens(seen, es)[i]
                != unseen_tokens(seen, es)[j] by {
                assert(unseen_tokens(seen, es)[i] == unseen_tokens(seen, es.drop_first())[i]);
                assert(unseen_tokens(seen, es)[j] == unseen_tokens(seen, es.drop_first())[j]);
            }
        } else {
            let t0 = es[0].token@;
            let rest = unseen_tokens(seen.insert(t0), es.drop_first());
            lemma_unseen_distinct(seen.insert(t0), es.drop_first());
            lemma_unseen_excludes_seen(seen.insert(t0), es.drop_first(), t0);
            assert(unseen_tokens(seen, es) == seq![t0] + rest);
            assert forall|i: int, j: int|
                0 <= i < j < unseen_tokens(seen, es).len() implies unseen_tokens(seen, es)[i]
                != unseen_tokens(seen, es)[j] by {
                if i == 0 {
                    assert(unseen_tokens(seen, es)[0] == t0);
                    assert(unseen_tokens(seen, es)[j] == rest[j - 1]);
                    assert(rest.contains(rest[j - 1]));
                } else {
                    assert(unseen_tokens(seen, es)[i] == rest[i - 1]);
                    assert(unseen_tokens(seen, es)[j] == rest[j - 1]);
                }
            }
        }
    }
}

/// Every token handed out for resolution occurs in the message.
pub proof fn lemma_unseen_subset(seen: Set<Seq<char>>, es: Seq<RawEmote>, t: Seq<char>)
    requires
        unseen_tokens(seen, es).contains(t),
    ensures
        raw_tokens(es).contains(t),
        !seen.contains(t),
    decreases es.len(),
{
    if es.len() > 0 {
        let t0 = es[0].token@;
        if seen.contains(t0) {
            lemma_unseen_subset(seen, es.drop_first(), t);
            let i = choose|i: int|
                0 <= i < es.drop_first().len() && es.drop_first()[i].token@ == t;
            assert(es[i + 1].token@ == t);
        } else {
            if t == t0 {
                assert(es[0].token@ == t);
            } else {
                let u = unseen_tokens(seen, es);
                let k = choose|k: int| 0 <= k < u.len() && u[k] == t;
                assert(u[k] == unseen_tokens(seen.insert(t0), es.drop_first())[k - 1]);
                lemma_unseen_subset(seen.insert(t0), es.drop_first(), t);
                let i = choose|i: int|
                    0 <= i < es.drop_first().len() && es.drop_first()[i].token@ == t;
                assert(es[i + 1].token@ == t);
            }
        }
    }
}

/// Resolution happens at most once per process lifetime: a token that one
/// message asked to resolve is, after that message's tokens are marked
/// seen, never asked for again by any later message.
pub proof fn lemma_resolve_at_most_once(
    seen: Set<Seq<char>>,
    first: Seq<RawEmote>,
    later: Seq<RawEmote>,
    t: Seq<char>,
)
    requires
        unseen_tokens(seen, first).contains(t),
    ensures
        !unseen_tokens(seen.union(raw_tokens(first)), later).contains(t),
{
    lemma_unseen_subset(seen, first, t);
    lemma_unseen_excludes_seen(seen.union(raw_tokens(first)), later, t);
}

/// First verified half of message handling: marks every token of the
/// message seen and returns, in first-occurrence order and without
/// duplicates, exactly the tokens that had never been seen before — the
/// ones the caller must now resolve (at most once each, ever).
pub fn begin_message(cache: &mut EmoteCache, msg: &RawMessage) -> (to_resolve: Vec<String>)
    requires
        old(cache).inv(),
    ensures
        final(cache).inv(),
        final(cache).metas() == old(cache).metas(),
        final(cache).seen_set() == old(cache).seen_set().union(raw_tokens(msg.emotes@)),
        to_resolve@.map_values(|s: String| s@) == unseen_tokens(
            old(cache).seen_set(),
            msg.emotes@,
        ),
{
    let ghost seen0 = cache.seen_set();
    let ghost es = msg.emotes@;
    let mut to_resolve: Vec<String> = Vec::new();
    let mut i: usize = 0;
    proof {
        assert(es.take(0) =~= Seq::<RawEmote>::empty());
        assert(raw_tokens(Seq::<RawEmote>::empty()) =~= Set::<Seq<char>>::empty());
        assert(seen0.union(Set::<Seq<char>>::empty()) =~= seen0);
        assert(es.skip(0) =~= es);
        assert(to_resolve@.map_values(|s: String| s@) =~= Seq::<Seq<char>>::empty());
        assert(Seq::<Seq<char>>::empty() + unseen_tokens(seen0, es) =~= unseen_tokens(seen0, es));
    }
    while i < msg.emotes.len()
        invariant
            0 <= i <= es.len(),
            es == msg.emotes@,
            cache.inv(),
            cache.metas() == old(cache).metas(),
            cache.seen_set() == seen0.union(raw_tokens(es.take(i as int))),
            unseen_tokens(seen0, es) == to_resolve@.map_values(|s: String| s@) + unseen_tokens(
                cache.seen_set(),
                es.skip(i as int),
            ),
        decreases es.len() - i,
    {
        let ghost pre = cache.seen_set();
        let ghost tok = es[i as int].token@;
        proof {
            assert(es.skip(i as int).len() == es.len() - i);
            assert(es.skip(i as int)[0] == es[i as int]);
            assert(es.skip(i as int).drop_first() =~= es.skip(i as int + 1));
        }
        let ghost oldmap = to_resolve@.map_values(|s: String| s@);
        let is_new = cache.lookup_or_register(&msg.emotes[i].token);
        if is_new {
            to_resolve.push(msg.emotes[i].token.clone());
        }
        proof {
            // The seen set after this step is the union over the longer prefix.
            assert(es.take(i as int + 1) =~= es.take(i as int).push(es[i as int]));
            assert forall|t: Seq<char>| raw_tokens(es.take(i as int + 1)).contains(t) implies pre
                .insert(tok).contains(t) by {
                let k = choose|k: int|
                    #![trigger es.take(i as int + 1)[k]]
                    0 <= k < es.take(i as int + 1).len() && es.take(i as int + 1)[k].token@ == t;
                if k < i as int {
                    assert(es.take(i as int)[k].token@ == t);
                }
            }
            assert forall|t: Seq<char>| pre.insert(tok).contains(t) implies raw_tokens(
                es.take(i as int + 1),
            ).contains(t) || seen0.contains(t) by {
                if t == tok {
                    assert(es.take(i as int + 1)[i as int].token@ == t);
                } else {
                    if raw_tokens(es.take(i as int)).contains(t) {
                        let k = choose|k: int|
                            #![trigger es.take(i as int)[k]]
                            0 <= k < es.take(i as int).len() && es.take(i as int)[k].token@ == t;
                        assert(es.take(i as int + 1)[k].token@ == t);
                    }
                }
            }
            assert(cache.seen_set() =~= seen0.union(raw_tokens(es.take(i as int + 1))));
            // The resolution list still accounts for exactly the unseen tokens.
            if is_new {
                assert(unseen_tokens(pre, es.skip(i as int)) =~= seq![tok] + unseen_tokens(
                    pre.insert(tok),
                    es.skip(i as int + 1),
                ));
                assert(to_resolve@.map_values(|s: String| s@) =~= oldmap.push(tok));
                assert(oldmap.push(tok) + unseen_tokens(cache.seen_set(), es.skip(i as int + 1))
                    =~= oldmap + (seq![tok] + unseen_tokens(
                    cache.seen_set(),
                    es.skip(i as int + 1),
                )));
            } else {
                assert(pre.insert(tok) =~= pre);
                assert(unseen_tokens(pre, es.skip(i as int)) =~= unseen_tokens(
                    pre,
                    es.skip(i as int + 1),
                ));
            }
        }
        i = i + 1;
    }
    proof {
        assert(es.take(es.len() as int) =~= es);
        assert(es.skip(es.len() as int) =~= Seq::<RawEmote>::empty());
        assert(unseen_tokens(cache.seen_set(), Seq::<RawEmote>::empty()) =~= Seq::<
            Seq<char>,
        >::empty());
        assert(to_resolve@.map_values(|s: String| s@) + Seq::<Seq<char>>::empty() =~= to_resolve@
            .map_values(|s: String| s@));
    }
    to_resolve
}

/// How one raw occurrence is enriched from the cache: URL and dimensions
/// are copied from the token's metadata when the cache holds any, and the
/// token renders as plain text (no URL, no dimensions) when it holds none.
pub open spec fn enriched(
    metas: Map<Seq<char>, EmoteMeta>,
    raw: RawEmote,
    inst: EmoteInstance,
) -> bool {
    &&& inst.token == raw.token
    &&& inst.start == raw.start
    &&& inst.end == raw.end
    &&& if metas.contains_key(raw.token@) {
        inst.url == Some(metas[raw.token@].url) && inst.dims == metas[raw.token@].dims
    } else {
        inst.url is None && inst.dims is None
    }
}

/// Second verified half of message handling: builds the normalized event,
/// carrying for every occurrence the metadata the cache holds after
/// resolution — or plain text where resolution failed and left none.
pub fn finish_message(cache: &EmoteCache, msg: &RawMessage) -> (ev: ChatEvent)
    requires
        cache.inv(),
    ensures
        ev.sender == msg.sender,
        ev.text == msg.text,
        ev.emotes@.len() == msg.emotes@.len(),
        forall|i: int|
            0 <= i < msg.emotes@.len() ==> enriched(cache.metas(), msg.emotes@[i], ev.emotes@[i]),
{
    let mut emotes: Vec<EmoteInstance> = Vec::new();
    let mut i: usize = 0;
    while i < msg.emotes.len()
        invariant
            0 <= i <= msg.emotes@.len(),
            emotes@.len() == i,
            cache.inv(),
            forall|j: int| 0 <= j < i ==> enriched(cache.metas(), msg.emotes@[j], emotes@[j]),
        decreases msg.emotes@.len() - i,
    {
        let raw = &msg.emotes[i];
        let inst = match cache.get(&raw.token) {
            Some(m) => EmoteInstance {
                token: raw.token.clone(),
                start: raw.start,
                end: raw.end,
                url: Some(m.url.clone()),
                dims: m.dims,
            },
            None => EmoteInstance {
                token: raw.token.clone(),
                start: raw.start,
                end: raw.end,
                url: None,
                dims: None,
            },
        };
        emotes.push(inst);
        i = i + 1;
    }
    ChatEvent { sender: msg.sender.clone(), text: msg.text.clone(), emotes }
}

} // verus!
