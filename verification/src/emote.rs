//! Emote-metadata cache: records which tokens have ever been sighted and
//! what metadata has been resolved for them. A token triggers resolution
//! work at most once per process lifetime; metadata, once created, is never
//! deleted, and its dimensions are filled in at most once.

use vstd::prelude::*;
use crate::event::EmoteDims;

verus! {

/// Metadata for one emote token: created with the source URL when the
/// token is first resolved, dimensions filled in at most once when the
/// backing image's intrinsic size becomes known.
pub struct EmoteMeta {
    pub token: String,
    pub url: String,
    pub dims: Option<EmoteDims>,
}

/// True when some string in `ss` views to `t`.
pub open spec fn str_seq_has(ss: Seq<String>, t: Seq<char>) -> bool {
    exists|i: int| 0 <= i < ss.len() && ss[i]@ == t
}

/// True when some entry of `es` carries token `t`.
pub open spec fn meta_seq_has(es: Seq<EmoteMeta>, t: Seq<char>) -> bool {
    exists|i: int| 0 <= i < es.len() && es[i].token@ == t
}

/// No two entries carry the same token.
pub open spec fn unique_tokens(es: Seq<EmoteMeta>) -> bool {
    forall|i: int, j: int| 0 <= i < j < es.len() ==> es[i].token@ != es[j].token@
}

/// The association list `es` read as a map from token to metadata.
pub open spec fn map_of(es: Seq<EmoteMeta>) -> Map<Seq<char>, EmoteMeta>
    decreases es.len(),
{
    if es.len() == 0 {
        Map::empty()
    } else {
        map_of(es.drop_last()).insert(es.last().token@, es.last())
    }
}

proof fn lemma_map_of_domain(es: Seq<EmoteMeta>)
    ensures
        forall|k: Seq<char>| #[trigger] map_of(es).contains_key(k) <==> meta_seq_has(es, k),
    decreases es.len(),
{
    if es.len() > 0 {
        lemma_map_of_domain(es.drop_last());
        assert forall|k: Seq<char>| #[trigger] map_of(es).contains_key(k) implies meta_seq_has(
            es,
            k,
        ) by {
            if k == es.last().token@ {
                assert(es[es.len() - 1].token@ == k);
            } else {
                assert(map_of(es.drop_last()).contains_key(k));
                assert(meta_seq_has(es.drop_last(), k));
                let i = choose|i: int|
                    0 <= i < es.drop_last().len() && es.drop_last()[i].token@ == k;
                assert(es[i].token@ == k);
            }
        }
        assert forall|k: Seq<char>| meta_seq_has(es, k) implies #[trigger] map_of(
            es,
        ).contains_key(k) by {
            let i = choose|i: int| 0 <= i < es.len() && es[i].token@ == k;
            if i < es.len() - 1 {
                assert(es.drop_last()[i].token@ == k);
                assert(meta_seq_has(es.drop_last(), k));
                assert(map_of(es.drop_last()).contains_key(k));
            }
        }
    }
}

proof fn lemma_map_of_index(es: Seq<EmoteMeta>, i: int)
    requires
        unique_tokens(es),
        0 <= i < es.len(),
    ensures
        map_of(es).contains_key(es[i].token@),
        map_of(es)[es[i].token@] == es[i],
    decreases es.len(),
{
    if i == es.len() - 1 {
    } else {
        assert(unique_tokens(es.drop_last()));
        assert(es.drop_last()[i] == es[i]);
        lemma_map_of_index(es.drop_last(), i);
        assert(es[i].token@ != es.last().token@);
    }
}

proof fn lemma_map_of_update(es: Seq<EmoteMeta>, i: int, m: EmoteMeta)
    requires
        unique_tokens(es),
        0 <= i < es.len(),
        m.token@ == es[i].token@,
    ensures
        map_of(es.update(i, m)) == map_of(es).insert(m.token@, m),
    decreases es.len(),
{
    let k = m.token@;
    if i == es.len() - 1 {
        assert(es.update(i, m).drop_last() =~= es.drop_last());
        assert(es.update(i, m).last() == m);
        assert(map_of(es.drop_last()).insert(k, es.last()).insert(k, m) =~= map_of(
            es.drop_last(),
        ).insert(k, m));
    } else {
        assert(unique_tokens(es.drop_last()));
        assert(es.drop_last()[i] == es[i]);
        lemma_map_of_update(es.drop_last(), i, m);
        assert(es.update(i, m).drop_last() =~= es.drop_last().update(i, m));
        assert(es.update(i, m).last() == es.last());
        let lk = es.last().token@;
        assert(es[es.len() - 1].token@ == lk);
        assert(k != lk);
        assert(map_of(es.drop_last()).insert(k, m).insert(lk, es.last()) =~= map_of(
            es.drop_last(),
        ).insert(lk, es.last()).insert(k, m));
    }
}

/// What seeding a pre-fetched emote set does: each (token, URL) pair
/// creates the token's entry unless one exists, first pair winning.
pub open spec fn seeded(m: Map<Seq<char>, EmoteMeta>, seeds: Seq<(String, String)>) -> Map<
    Seq<char>,
    EmoteMeta,
>
    decreases seeds.len(),
{
    if seeds.len() == 0 {
        m
    } else {
        let next = if m.contains_key(seeds[0].0@) {
            m
        } else {
            m.insert(
                seeds[0].0@,
                EmoteMeta { token: seeds[0].0, url: seeds[0].1, dims: None },
            )
        };
        seeded(next, seeds.drop_first())
    }
}

/// The cache: the set of tokens ever sighted, kept apart from the map of
/// resolved metadata, so that a token already in flight is recognized and
/// never resolved a second time.
pub struct EmoteCache {
    seen: Vec<String>,
    entries: Vec<EmoteMeta>,
}

impl EmoteCache {
    /// Internal invariant: entry tokens are pairwise distinct.
    pub closed spec fn inv(&self) -> bool {
        unique_tokens(self.entries@)
    }

    /// The set of token texts ever sighted.
    pub closed spec fn seen_set(&self) -> Set<Seq<char>> {
        Set::new(|t: Seq<char>| str_seq_has(self.seen@, t))
    }

    /// The resolved metadata, keyed by token text.
    pub closed spec fn metas(&self) -> Map<Seq<char>, EmoteMeta> {
        map_of(self.entries@)
    }

    pub fn new() -> (c: EmoteCache)
        ensures
            c.inv(),
            c.seen_set() == Set::<Seq<char>>::empty(),
            c.metas() == Map::<Seq<char>, EmoteMeta>::empty(),
    {
        let c = EmoteCache { seen: Vec::new(), entries: Vec::new() };
        proof {
            assert(c.seen_set() =~= Set::<Seq<char>>::empty());
            assert(c.metas() =~= Map::<Seq<char>, EmoteMeta>::empty());
        }
        c
    }

    /// Whether `token` has ever been sighted.
    pub fn is_seen(&self, token: &String) -> (r: bool)
        ensures
            r == self.seen_set().contains(token@),
    {
        let mut i: usize = 0;
        while i < self.seen.len()
            invariant
                0 <= i <= self.seen@.len(),
                forall|j: int| 0 <= j < i ==> self.seen@[j]@ != token@,
            decreases self.seen@.len() - i,
        {
            if self.seen[i] == *token {
                return true;
            }
            i = i + 1;
        }
        false
    }

    /// Marks `token` sighted. Returns true exactly when this is the first
    /// sighting, i.e. when resolution work must be started for it.
    pub fn lookup_or_register(&mut self, token: &String) -> (is_new: bool)
        requires
            old(self).inv(),
        ensures
            final(self).inv(),
            is_new == !old(self).seen_set().contains(token@),
            final(self).seen_set() == old(self).seen_set().insert(token@),
            final(self).metas() == old(self).metas(),
    {
        if self.is_seen(token) {
            proof {
                assert(self.seen_set() =~= self.seen_set().insert(token@));
            }
            false
        } else {
            self.seen.push(token.clone());
            proof {
                assert forall|t: Seq<char>| self.seen_set().contains(t) implies old(
                    self,
                ).seen_set().insert(token@).contains(t) by {
                    let i = choose|i: int| 0 <= i < self.seen@.len() && self.seen@[i]@ == t;
                    if i < old(self).seen@.len() {
                        assert(old(self).seen@[i]@ == t);
                    }
                }
                assert forall|t: Seq<char>|
                    old(self).seen_set().insert(token@).contains(t) implies self.seen_set().contains(
                    t,
                ) by {
                    if t == token@ {
                        assert(self.seen@[self.seen@.len() - 1]@ == t);
                    } else {
                        let i = choose|i: int|
                            0 <= i < old(self).seen@.len() && old(self).seen@[i]@ == t;
                        assert(self.seen@[i]@ == t);
                    }
                }
                assert(self.seen_set() =~= old(self).seen_set().insert(token@));
            }
            true
        }
    }

    /// Index of the entry carrying `token`, if one exists.
    fn find_entry(&self, token: &String) -> (r: Option<usize>)
        requires
            self.inv(),
        ensures
            match r {
                Some(i) => i < self.entries@.len() && self.entries@[i as int].token@ == token@
                    && self.metas().contains_key(token@) && self.metas()[token@]
                    == self.entries@[i as int],
                None => !self.metas().contains_key(token@),
            },
    {
        proof {
            lemma_map_of_domain(self.entries@);
        }
        let mut i: usize = 0;
        while i < self.entries.len()
            invariant
                0 <= i <= self.entries@.len(),
                forall|j: int| 0 <= j < i ==> self.entries@[j].token@ != token@,
                self.inv(),
            decreases self.entries@.len() - i,
        {
            if self.entries[i].token == *token {
                proof {
                    lemma_map_of_index(self.entries@, i as int);
                }
                return Some(i);
            }
            i = i + 1;
        }
        None
    }

    /// Looks up the metadata recorded for `token`, if any.
    pub fn get(&self, token: &String) -> (r: Option<&EmoteMeta>)
        requires
            self.inv(),
        ensures
            match r {
                Some(m) => self.metas().contains_key(token@) && *m == self.metas()[token@],
                None => !self.metas().contains_key(token@),
            },
    {
        match self.find_entry(token) {
            Some(i) => Some(&self.entries[i]),
            None => None,
        }
    }

    /// Creates the metadata entry for `token` with its source URL, if none
    /// exists yet; an entry already present is left untouched.
    pub fn register_url(&mut self, token: &String, url: &String)
        requires
            old(self).inv(),
        ensures
            final(self).inv(),
            final(self).seen_set() == old(self).seen_set(),
            old(self).metas().contains_key(token@) ==> final(self).metas() == old(self).metas(),
            !old(self).metas().contains_key(token@) ==> final(self).metas() == old(self).metas().insert(
                token@,
                (EmoteMeta { token: *token, url: *url, dims: None }),
            ),
    {
        self.merge_meta(token, url, None);
    }

    /// Merges one piece of event-borne metadata into the cache: created
    /// if the token has no entry yet, left untouched otherwise (the first
    /// write wins).
    pub fn merge_meta(&mut self, token: &String, url: &String, dims: Option<EmoteDims>)
        requires
            old(self).inv(),
        ensures
            final(self).inv(),
            final(self).seen_set() == old(self).seen_set(),
            old(self).metas().contains_key(token@) ==> final(self).metas() == old(self).metas(),
            !old(self).metas().contains_key(token@) ==> final(self).metas() == old(self).metas().insert(
                token@,
                (EmoteMeta { token: *token, url: *url, dims }),
            ),
    {
        match self.find_entry(token) {
            Some(_) => {},
            None => {
                proof {
                    lemma_map_of_domain(self.entries@);
                }
                let m = EmoteMeta { token: token.clone(), url: url.clone(), dims };
                self.entries.push(m);
                proof {
                    assert(self.entries@.drop_last() =~= old(self).entries@);
                    assert forall|a: int, b: int|
                        0 <= a < b < self.entries@.len() implies self.entries@[a].token@
                        != self.entries@[b].token@ by {
                        if b < self.entries@.len() - 1 {
                            assert(old(self).entries@[a].token@ != old(self).entries@[b].token@);
                        } else {
                            assert(meta_seq_has(old(self).entries@, old(self).entries@[a].token@));
                        }
                    }
                }
            },
        }
    }

    /// Seeds a whole pre-fetched emote set (token and URL pairs) into the
    /// cache in one step, first write per token winning; the seen set is
    /// untouched, so seeding never suppresses resolution bookkeeping.
    pub fn register_emote_set(&mut self, seeds: &Vec<(String, String)>)
        requires
            old(self).inv(),
        ensures
            final(self).inv(),
            final(self).seen_set() == old(self).seen_set(),
            final(self).metas() == seeded(old(self).metas(), seeds@),
    {
        let ghost ss = seeds@;
        let ghost m0 = self.metas();
        let mut i: usize = 0;
        proof {
            assert(ss.skip(0) =~= ss);
        }
        while i < seeds.len()
            invariant
                0 <= i <= ss.len(),
                ss == seeds@,
                self.inv(),
                self.seen_set() == old(self).seen_set(),
                seeded(m0, ss) == seeded(self.metas(), ss.skip(i as int)),
            decreases ss.len() - i,
        {
            proof {
                assert(ss.skip(i as int)[0] == ss[i as int]);
                assert(ss.skip(i as int).drop_first() =~= ss.skip(i as int + 1));
            }
            self.merge_meta(&seeds[i].0, &seeds[i].1, None);
            i = i + 1;
        }
        proof {
            assert(ss.skip(ss.len() as int) =~= Seq::<(String, String)>::empty());
        }
    }

    /// Records the resolved dimensions for `token`. The entry is mutated at
    /// most once: dimensions already present are never overwritten, and a
    /// token with no entry is left without one.
    pub fn record_resolution(&mut self, token: &String, width: u32, height: u32)
        requires
            old(self).inv(),
        ensures
            final(self).inv(),
            final(self).seen_set() == old(self).seen_set(),
            !old(self).metas().contains_key(token@) ==> final(self).metas() == old(self).metas(),
            old(self).metas().contains_key(token@) && old(self).metas()[token@].dims is Some
                ==> final(self).metas() == old(self).metas(),
            old(self).metas().contains_key(token@) && old(self).metas()[token@].dims is None
                ==> final(self).metas() == old(self).metas().insert(
                token@,
                (EmoteMeta {
                    token: old(self).metas()[token@].token,
                    url: old(self).metas()[token@].url,
                    dims: Some(EmoteDims { width, height }),
                }),
            ),
    {
        match self.find_entry(token) {
            Some(i) => {
                if self.entries[i].dims.is_none() {
                    let m = EmoteMeta {
                        token: self.entries[i].token.clone(),
                        url: self.entries[i].url.clone(),
                        dims: Some(EmoteDims { width, height }),
                    };
                    proof {
                        lemma_map_of_update(self.entries@, i as int, m);
                    }
                    self.entries.set(i, m);
                    proof {
                        assert forall|a: int, b: int|
                            0 <= a < b < self.entries@.len() implies self.entries@[a].token@
                            != self.entries@[b].token@ by {
                            assert(old(self).entries@[a].token@ != old(self).entries@[b].token@);
                        }
                    }
                }
            },
            None => {},
        }
    }
}

} // verus!
