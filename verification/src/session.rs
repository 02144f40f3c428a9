//! The active-user session table: the authoritative mapping from chat
//! identity to on-screen avatar handle and last-activity tick, owned
//! exclusively by the single-threaded consumer. A session is created on
//! the first event from an unseen identity, refreshed on every later
//! event, and evicted once it has gone unrefreshed for the inactivity
//! threshold; eviction is terminal, a later event creates a brand-new
//! session with a brand-new handle.

use vstd::prelude::*;

verus! {

/// One active user: the identity that keys the session, the opaque handle
/// of the avatar spawned for it, and the tick of its last activity.
pub struct UserSession {
    pub identity: String,
    pub avatar: u64,
    pub last_activity: u64,
}

/// True when some row of `rows` is keyed by `id`.
pub open spec fn has_id(rows: Seq<UserSession>, id: Seq<char>) -> bool {
    exists|i: int| 0 <= i < rows.len() && rows[i].identity@ == id
}

/// No two rows share an identity.
pub open spec fn unique_ids(rows: Seq<UserSession>) -> bool {
    forall|i: int, j: int| 0 <= i < j < rows.len() ==> rows[i].identity@ != rows[j].identity@
}

/// No two rows share an avatar handle.
pub open spec fn unique_avatars(rows: Seq<UserSession>) -> bool {
    forall|i: int, j: int| 0 <= i < j < rows.len() ==> rows[i].avatar != rows[j].avatar
}

/// The position of the row keyed by `id`.
pub open spec fn id_index(rows: Seq<UserSession>, id: Seq<char>) -> int {
    choose|i: int| 0 <= i < rows.len() && rows[i].identity@ == id
}

/// The rows read as a map from identity to session.
pub open spec fn map_of_rows(rows: Seq<UserSession>) -> Map<Seq<char>, UserSession> {
    Map::new(|id: Seq<char>| has_id(rows, id), |id: Seq<char>| rows[id_index(rows, id)])
}

/// A session counts as expired at `now` once it has gone at least
/// `threshold` ticks without a refresh.
pub open spec fn expired(s: UserSession, now: u64, threshold: u64) -> bool {
    now - s.last_activity >= threshold
}

proof fn lemma_map_at(rows: Seq<UserSession>, i: int)
    requires
        unique_ids(rows),
        0 <= i < rows.len(),
    ensures
        map_of_rows(rows).contains_key(rows[i].identity@),
        map_of_rows(rows)[rows[i].identity@] == rows[i],
{
    let id = rows[i].identity@;
    assert(has_id(rows, id));
    let j = id_index(rows, id);
    assert(0 <= j < rows.len() && rows[j].identity@ == id);
    if i != j {
        assert(false);
    }
}

proof fn lemma_map_push(rows: Seq<UserSession>, s: UserSession)
    requires
        unique_ids(rows),
        !has_id(rows, s.identity@),
    ensures
        unique_ids(rows.push(s)),
        map_of_rows(rows.push(s)) == map_of_rows(rows).insert(s.identity@, s),
{
    let rows2 = rows.push(s);
    assert forall|a: int, b: int| 0 <= a < b < rows2.len() implies rows2[a].identity@
        != rows2[b].identity@ by {
        if b < rows.len() {
        } else {
            assert(rows2[a] == rows[a]);
            if rows2[a].identity@ == s.identity@ {
                assert(has_id(rows, s.identity@));
            }
        }
    }
    assert forall|id: Seq<char>| #[trigger] map_of_rows(rows2).contains_key(id) implies map_of_rows(
        rows,
    ).insert(s.identity@, s).contains_key(id) by {
        let i = choose|i: int| 0 <= i < rows2.len() && rows2[i].identity@ == id;
        if i < rows.len() {
            assert(rows[i].identity@ == id);
        }
    }
    assert forall|id: Seq<char>|
        map_of_rows(rows).insert(s.identity@, s).contains_key(id) implies #[trigger] map_of_rows(
        rows2,
    ).contains_key(id) && map_of_rows(rows2)[id] == map_of_rows(rows).insert(
        s.identity@,
        s,
    )[id] by {
        if id == s.identity@ {
            lemma_map_at(rows2, rows.len() as int);
        } else {
            let i = choose|i: int| 0 <= i < rows.len() && rows[i].identity@ == id;
            assert(rows2[i].identity@ == id);
            lemma_map_at(rows, i);
            lemma_map_at(rows2, i);
        }
    }
    assert(map_of_rows(rows2) =~= map_of_rows(rows).insert(s.identity@, s));
}

proof fn lemma_map_update(rows: Seq<UserSession>, i: int, s: UserSession)
    requires
        unique_ids(rows),
        0 <= i < rows.len(),
        s.identity@ == rows[i].identity@,
    ensures
        unique_ids(rows.update(i, s)),
        map_of_rows(rows.update(i, s)) == map_of_rows(rows).insert(s.identity@, s),
{
    let rows2 = rows.update(i, s);
    assert forall|a: int, b: int| 0 <= a < b < rows2.len() implies rows2[a].identity@
        != rows2[b].identity@ by {
        assert(rows[a].identity@ != rows[b].identity@);
    }
    assert forall|id: Seq<char>| #[trigger] map_of_rows(rows2).contains_key(id) implies map_of_rows(
        rows,
    ).insert(s.identity@, s).contains_key(id) by {
        let k = choose|k: int| 0 <= k < rows2.len() && rows2[k].identity@ == id;
        assert(rows[k].identity@ == id || id == s.identity@);
    }
    assert forall|id: Seq<char>|
        map_of_rows(rows).insert(s.identity@, s).contains_key(id) implies #[trigger] map_of_rows(
        rows2,
    ).contains_key(id) && map_of_rows(rows2)[id] == map_of_rows(rows).insert(
        s.identity@,
        s,
    )[id] by {
        if id == s.identity@ {
            lemma_map_at(rows2, i);
        } else {
            let k = choose|k: int| 0 <= k < rows.len() && rows[k].identity@ == id;
            assert(rows2[k].identity@ == id);
            lemma_map_at(rows, k);
            lemma_map_at(rows2, k);
        }
    }
    assert(map_of_rows(rows2) =~= map_of_rows(rows).insert(s.identity@, s));
}

/// What one eviction scan does: splits the rows, in order, into the kept
/// sessions (not expired) and the avatar handles of the evicted ones.
pub open spec fn evict_model(rows: Seq<UserSession>, now: u64, threshold: u64) -> (
    Seq<UserSession>,
    Seq<u64>,
)
    decreases rows.len(),
{
    if rows.len() == 0 {
        (Seq::empty(), Seq::empty())
    } else {
        let rest = evict_model(rows.drop_first(), now, threshold);
        if expired(rows[0], now, threshold) {
            (rest.0, seq![rows[0].avatar] + rest.1)
        } else {
            (seq![rows[0]] + rest.0, rest.1)
        }
    }
}

/// `s` is one of the rows of `rows` that the scan at `now` keeps.
pub open spec fn kept_from(rows: Seq<UserSession>, now: u64, threshold: u64, s: UserSession) -> bool {
    exists|i: int| 0 <= i < rows.len() && rows[i] == s && !expired(rows[i], now, threshold)
}

/// `h` is the avatar handle of one of the rows of `rows` that the scan at
/// `now` removes.
pub open spec fn removed_from(rows: Seq<UserSession>, now: u64, threshold: u64, h: u64) -> bool {
    exists|i: int| 0 <= i < rows.len() && rows[i].avatar == h && expired(rows[i], now, threshold)
}

#[verifier::rlimit(100)]
proof fn lemma_evict_model_props(rows: Seq<UserSession>, now: u64, threshold: u64)
    ensures
        forall|k: int|
            0 <= k < evict_model(rows, now, threshold).0.len() ==> kept_from(
                rows,
                now,
                threshold,
                #[trigger] evict_model(rows, now, threshold).0[k],
            ),
        forall|i: int|
            0 <= i < rows.len() && !expired(#[trigger] rows[i], now, threshold) ==> evict_model(
                rows,
                now,
                threshold,
            ).0.contains(rows[i]),
        forall|k: int|
            0 <= k < evict_model(rows, now, threshold).1.len() ==> removed_from(
                rows,
                now,
                threshold,
                #[trigger] evict_model(rows, now, threshold).1[k],
            ),
        forall|i: int|
            0 <= i < rows.len() && expired(#[trigger] rows[i], now, threshold) ==> evict_model(
                rows,
                now,
                threshold,
            ).1.contains(rows[i].avatar),
        unique_ids(rows) ==> unique_ids(evict_model(rows, now, threshold).0),
        unique_avatars(rows) ==> unique_avatars(evict_model(rows, now, threshold).0),
        unique_avatars(rows) ==> forall|a: int, b: int|
            0 <= a < b < evict_model(rows, now, threshold).1.len() ==> evict_model(
                rows,
                now,
                threshold,
            ).1[a] != evict_model(rows, now, threshold).1[b],
    decreases rows.len(),
{
    if rows.len() > 0 {
        let rest = rows.drop_first();
        lemma_evict_model_props(rest, now, threshold);
        let (kept_r, rem_r) = evict_model(rest, now, threshold);
        let (kept, rem) = evict_model(rows, now, threshold);
        assert forall|i: int| 0 <= i < rest.len() implies rest[i] == rows[i + 1] by {}
        if expired(rows[0], now, threshold) {
            assert forall|k: int| 0 <= k < kept.len() implies kept_from(
                rows,
                now,
                threshold,
                #[trigger] kept[k],
            ) by {
                assert(kept[k] == kept_r[k]);
                assert(kept_from(rest, now, threshold, kept_r[k]));
                let i = choose|i: int|
                    0 <= i < rest.len() && rest[i] == kept_r[k] && !expired(rest[i], now, threshold);
                assert(rows[i + 1] == kept[k]);
            }
            assert forall|k: int| 0 <= k < rem.len() implies removed_from(
                rows,
                now,
                threshold,
                #[trigger] rem[k],
            ) by {
                if k == 0 {
                    assert(rows[0].avatar == rem[0]);
                } else {
                    assert(rem[k] == rem_r[k - 1]);
                    assert(removed_from(rest, now, threshold, rem_r[k - 1]));
                    let i = choose|i: int|
                        0 <= i < rest.len() && rest[i].avatar == rem_r[k - 1] && expired(
                            rest[i],
                            now,
                            threshold,
                        );
                    assert(rows[i + 1].avatar == rem[k]);
                }
            }
            assert forall|i: int|
                0 <= i < rows.len() && !expired(#[trigger] rows[i], now, threshold) implies kept
                .contains(rows[i]) by {
                assert(rest[i - 1] == rows[i]);
                assert(kept_r.contains(rest[i - 1]));
            }
            assert forall|i: int|
                0 <= i < rows.len() && expired(#[trigger] rows[i], now, threshold) implies rem
                .contains(rows[i].avatar) by {
                if i == 0 {
                    assert(rem[0] == rows[0].avatar);
                } else {
                    assert(rest[i - 1] == rows[i]);
                    assert(rem_r.contains(rest[i - 1].avatar));
                    let k = choose|k: int| 0 <= k < rem_r.len() && rem_r[k] == rows[i].avatar;
                    assert(rem[k + 1] == rem_r[k]);
                }
            }
            if unique_avatars(rows) {
                assert(unique_avatars(rest));
                assert forall|a: int, b: int| 0 <= a < b < rem.len() implies rem[a] != rem[b] by {
                    if a == 0 {
                        assert(removed_from(rest, now, threshold, rem_r[b - 1]));
                        let i = choose|i: int|
                            0 <= i < rest.len() && rest[i].avatar == rem_r[b - 1] && expired(
                                rest[i],
                                now,
                                threshold,
                            );
                        assert(rows[i + 1].avatar == rem[b]);
                    } else {
                        assert(rem[a] == rem_r[a - 1] && rem[b] == rem_r[b - 1]);
                    }
                }
            }
        } else {
            assert(kept[0] == rows[0]);
            assert forall|k: int| 0 <= k < kept.len() implies kept_from(
                rows,
                now,
                threshold,
                #[trigger] kept[k],
            ) by {
                if k == 0 {
                    assert(rows[0] == kept[0]);
                } else {
                    assert(kept[k] == kept_r[k - 1]);
                    assert(kept_from(rest, now, threshold, kept_r[k - 1]));
                    let i = choose|i: int|
                        0 <= i < rest.len() && rest[i] == kept_r[k - 1] && !expired(
                            rest[i],
                            now,
                            threshold,
                        );
                    assert(rows[i + 1] == kept[k]);
                }
            }
            assert forall|k: int| 0 <= k < rem.len() implies removed_from(
                rows,
                now,
                threshold,
                #[trigger] rem[k],
            ) by {
                assert(rem[k] == rem_r[k]);
                assert(removed_from(rest, now, threshold, rem_r[k]));
                let i = choose|i: int|
                    0 <= i < rest.len() && rest[i].avatar == rem_r[k] && expired(
                        rest[i],
                        now,
                        threshold,
                    );
                assert(rows[i + 1].avatar == rem[k]);
            }
            assert forall|i: int|
                0 <= i < rows.len() && !expired(#[trigger] rows[i], now, threshold) implies kept
                .contains(rows[i]) by {
                if i > 0 {
                    assert(rest[i - 1] == rows[i]);
                    assert(kept_r.contains(rest[i - 1]));
                    let k = choose|k: int| 0 <= k < kept_r.len() && kept_r[k] == rows[i];
                    assert(kept[k + 1] == kept_r[k]);
                }
            }
            assert forall|i: int|
                0 <= i < rows.len() && expired(#[trigger] rows[i], now, threshold) implies rem
                .contains(rows[i].avatar) by {
                assert(rest[i - 1] == rows[i]);
                assert(rem_r.contains(rest[i - 1].avatar));
            }
            if unique_ids(rows) {
                assert(unique_ids(rest));
                assert forall|a: int, b: int| 0 <= a < b < kept.len() implies kept[a].identity@
                    != kept[b].identity@ by {
                    if a == 0 {
                        assert(kept_from(rest, now, threshold, kept_r[b - 1]));
                        let i = choose|i: int|
                            0 <= i < rest.len() && rest[i] == kept_r[b - 1] && !expired(
                                rest[i],
                                now,
                                threshold,
                            );
                        assert(rows[i + 1] == kept[b]);
                    } else {
                        assert(kept[a] == kept_r[a - 1] && kept[b] == kept_r[b - 1]);
                    }
                }
            }
            if unique_avatars(rows) {
                assert(unique_avatars(rest));
                assert forall|a: int, b: int| 0 <= a < b < kept.len() implies kept[a].avatar
                    != kept[b].avatar by {
                    if a == 0 {
                        assert(kept_from(rest, now, threshold, kept_r[b - 1]));
                        let i = choose|i: int|
                            0 <= i < rest.len() && rest[i] == kept_r[b - 1] && !expired(
                                rest[i],
                                now,
                                threshold,
                            );
                        assert(rows[i + 1] == kept[b]);
                    } else {
                        assert(kept[a] == kept_r[a - 1] && kept[b] == kept_r[b - 1]);
                    }
                }
            }
        }
    }
}

/// The session table, owned by the consumer thread.
pub struct SessionTable {
    sessions: Vec<UserSession>,
    next_handle: u64,
    clock: u64,
}

impl SessionTable {
    /// The rows, in creation order.
    pub closed spec fn rows(&self) -> Seq<UserSession> {
        self.sessions@
    }

    /// The table read as a map from identity to session.
    pub open spec fn map_view(&self) -> Map<Seq<char>, UserSession> {
        map_of_rows(self.rows())
    }

    /// The handle the next created session will receive.
    pub closed spec fn next_handle_val(&self) -> u64 {
        self.next_handle
    }

    /// The latest tick the table has been touched at.
    pub closed spec fn clock_val(&self) -> u64 {
        self.clock
    }

    /// Internal invariant: identities unique, handles unique and below the
    /// allocation counter, no activity recorded later than the clock.
    pub closed spec fn inv(&self) -> bool {
        &&& unique_ids(self.sessions@)
        &&& unique_avatars(self.sessions@)
        &&& forall|i: int|
            0 <= i < self.sessions@.len() ==> #[trigger] self.sessions@[i].avatar
                < self.next_handle
        &&& forall|i: int|
            0 <= i < self.sessions@.len() ==> #[trigger] self.sessions@[i].last_activity
                <= self.clock
    }

    pub fn new() -> (t: SessionTable)
        ensures
            t.inv(),
            t.rows() == Seq::<UserSession>::empty(),
            t.map_view() == Map::<Seq<char>, UserSession>::empty(),
            t.next_handle_val() == 0,
            t.clock_val() == 0,
    {
        let t = SessionTable { sessions: Vec::new(), next_handle: 0, clock: 0 };
        proof {
            assert(t.map_view() =~= Map::<Seq<char>, UserSession>::empty());
        }
        t
    }

    /// The handle the next created session will receive.
    pub fn next_handle(&self) -> (h: u64)
        ensures
            h == self.next_handle_val(),
    {
        self.next_handle
    }

    /// The latest tick the table has been touched at.
    pub fn current_clock(&self) -> (c: u64)
        ensures
            c == self.clock_val(),
    {
        self.clock
    }

    /// How many sessions are active.
    pub fn len(&self) -> (n: usize)
        ensures
            n as nat == self.rows().len(),
    {
        self.sessions.len()
    }

    fn find(&self, identity: &String) -> (r: Option<usize>)
        requires
            self.inv(),
        ensures
            match r {
                Some(i) => i < self.rows().len() && self.rows()[i as int].identity@ == identity@
                    && self.map_view().contains_key(identity@) && self.map_view()[identity@]
                    == self.rows()[i as int],
                None => !self.map_view().contains_key(identity@),
            },
    {
        let mut i: usize = 0;
        while i < self.sessions.len()
            invariant
                0 <= i <= self.sessions@.len(),
                forall|j: int| 0 <= j < i ==> self.sessions@[j].identity@ != identity@,
                self.inv(),
            decreases self.sessions@.len() - i,
        {
            if self.sessions[i].identity == *identity {
                proof {
                    lemma_map_at(self.sessions@, i as int);
                }
                return Some(i);
            }
            i = i + 1;
        }
        None
    }

    /// Refreshes the session keyed by `identity`, if one exists: its
    /// last-activity tick becomes `now` and its avatar handle is returned.
    /// An identity with no session is left without one.
    pub fn refresh(&mut self, identity: &String, now: u64) -> (r: Option<u64>)
        requires
            old(self).inv(),
            now >= old(self).clock_val(),
        ensures
            final(self).inv(),
            final(self).clock_val() == now,
            final(self).next_handle_val() == old(self).next_handle_val(),
            final(self).rows().len() == old(self).rows().len(),
            r is Some <==> old(self).map_view().contains_key(identity@),
            r is Some ==> r == Some(old(self).map_view()[identity@].avatar)
                && final(self).map_view() == old(self).map_view().insert(
                identity@,
                (UserSession {
                    identity: old(self).map_view()[identity@].identity,
                    avatar: old(self).map_view()[identity@].avatar,
                    last_activity: now,
                }),
            ),
            r is Some ==> final(self).rows() == old(self).rows().update(
                id_index(old(self).rows(), identity@),
                (UserSession {
                    identity: old(self).rows()[id_index(old(self).rows(), identity@)].identity,
                    avatar: old(self).rows()[id_index(old(self).rows(), identity@)].avatar,
                    last_activity: now,
                }),
            ),
            r is None ==> final(self).map_view() == old(self).map_view() && final(self).rows()
                == old(self).rows(),
    {
        let r = match self.find(identity) {
            Some(i) => {
                let s = UserSession {
                    identity: self.sessions[i].identity.clone(),
                    avatar: self.sessions[i].avatar,
                    last_activity: now,
                };
                proof {
                    lemma_map_update(self.sessions@, i as int, s);
                    let j = id_index(self.sessions@, identity@);
                    assert(self.sessions@[j].identity@ == identity@);
                    if j != i as int {
                        assert(false);
                    }
                    lemma_map_at(self.sessions@, i as int);
                }
                let avatar = s.avatar;
                self.sessions.set(i, s);
                Some(avatar)
            },
            None => None,
        };
        self.clock = now;
        r
    }

    /// Creates a brand-new session for an identity that has none: it is
    /// keyed by `identity`, stamped with `now`, and given a fresh avatar
    /// handle never used by any session before.
    pub fn create(&mut self, identity: &String, now: u64) -> (avatar: u64)
        requires
            old(self).inv(),
            !old(self).map_view().contains_key(identity@),
            now >= old(self).clock_val(),
            old(self).next_handle_val() < u64::MAX,
        ensures
            final(self).inv(),
            final(self).clock_val() == now,
            avatar == old(self).next_handle_val(),
            final(self).next_handle_val() == old(self).next_handle_val() + 1,
            final(self).rows() == old(self).rows().push(
                (UserSession { identity: *identity, avatar, last_activity: now }),
            ),
            final(self).map_view() == old(self).map_view().insert(
                identity@,
                (UserSession { identity: *identity, avatar, last_activity: now }),
            ),
    {
        let avatar = self.next_handle;
        let s = UserSession { identity: identity.clone(), avatar, last_activity: now };
        proof {
            if has_id(self.sessions@, identity@) {
                let i = choose|i: int|
                    0 <= i < self.sessions@.len() && self.sessions@[i].identity@ == identity@;
                lemma_map_at(self.sessions@, i);
            }
            lemma_map_push(self.sessions@, s);
        }
        self.sessions.push(s);
        self.next_handle = self.next_handle + 1;
        self.clock = now;
        avatar
    }

    /// One eviction scan: every session that has gone at least `threshold`
    /// ticks without a refresh is removed, every other session is kept
    /// untouched, and the avatar handles of the removed sessions are
    /// returned, each exactly once, for the caller to despawn.
    pub fn evict_expired(&mut self, now: u64, threshold: u64) -> (removed: Vec<u64>)
        requires
            old(self).inv(),
            now >= old(self).clock_val(),
        ensures
            final(self).inv(),
            final(self).clock_val() == now,
            final(self).next_handle_val() == old(self).next_handle_val(),
            final(self).rows() == evict_model(old(self).rows(), now, threshold).0,
            removed@ == evict_model(old(self).rows(), now, threshold).1,
            forall|id: Seq<char>|
                #[trigger] final(self).map_view().contains_key(id) <==> old(
                    self,
                ).map_view().contains_key(id) && !expired(old(self).map_view()[id], now, threshold),
            forall|id: Seq<char>|
                #[trigger] final(self).map_view().contains_key(id) ==> final(self).map_view()[id]
                    == old(self).map_view()[id],
            forall|a: int, b: int| 0 <= a < b < removed@.len() ==> removed@[a] != removed@[b],
    {
        let ghost rows0 = self.sessions@;
        let mut remaining: Vec<UserSession> = Vec::new();
        core::mem::swap(&mut remaining, &mut self.sessions);
        let mut kept: Vec<UserSession> = Vec::new();
        let mut removed: Vec<u64> = Vec::new();
        proof {
            assert(kept@ + evict_model(remaining@, now, threshold).0 =~= evict_model(
                rows0,
                now,
                threshold,
            ).0);
            assert(removed@ + evict_model(remaining@, now, threshold).1 =~= evict_model(
                rows0,
                now,
                threshold,
            ).1);
        }
        while remaining.len() > 0
            invariant
                kept@ + evict_model(remaining@, now, threshold).0 == evict_model(
                    rows0,
                    now,
                    threshold,
                ).0,
                removed@ + evict_model(remaining@, now, threshold).1 == evict_model(
                    rows0,
                    now,
                    threshold,
                ).1,
                forall|k: int|
                    0 <= k < remaining@.len() ==> #[trigger] remaining@[k].last_activity <= now,
            decreases remaining@.len(),
        {
            let ghost pre = remaining@;
            let s = remaining.remove(0);
            proof {
                assert(remaining@ =~= pre.drop_first());
                assert(pre[0] == s);
            }
            if now - s.last_activity >= threshold {
                removed.push(s.avatar);
                proof {
                    assert(removed@ + evict_model(remaining@, now, threshold).1 =~= removed@
                        .drop_last() + (seq![s.avatar] + evict_model(remaining@, now, threshold).1));
                }
            } else {
                kept.push(s);
                proof {
                    assert(kept@ + evict_model(remaining@, now, threshold).0 =~= kept@.drop_last()
                        + (seq![s] + evict_model(remaining@, now, threshold).0));
                }
            }
        }
        proof {
            assert(evict_model(remaining@, now, threshold).0 =~= Seq::<UserSession>::empty());
            assert(evict_model(remaining@, now, threshold).1 =~= Seq::<u64>::empty());
            assert(kept@ =~= kept@ + evict_model(remaining@, now, threshold).0);
            assert(removed@ =~= removed@ + evict_model(remaining@, now, threshold).1);
        }
        self.sessions = kept;
        self.clock = now;
        proof {
            lemma_evict_model_props(rows0, now, threshold);
            let kept_s = evict_model(rows0, now, threshold).0;
            assert forall|k: int|
                0 <= k < kept_s.len() implies #[trigger] kept_s[k].avatar < self.next_handle
                && kept_s[k].last_activity <= self.clock by {
                assert(kept_from(rows0, now, threshold, kept_s[k]));
                let i = choose|i: int|
                    0 <= i < rows0.len() && rows0[i] == kept_s[k] && !expired(
                        rows0[i],
                        now,
                        threshold,
                    );
            }
            assert forall|id: Seq<char>| #[trigger] map_of_rows(kept_s).contains_key(id) implies
                map_of_rows(rows0).contains_key(id) && !expired(map_of_rows(rows0)[id], now, threshold)
                && map_of_rows(kept_s)[id] == map_of_rows(rows0)[id] by {
                let k = choose|k: int| 0 <= k < kept_s.len() && kept_s[k].identity@ == id;
                assert(kept_from(rows0, now, threshold, kept_s[k]));
                let i = choose|i: int|
                    0 <= i < rows0.len() && rows0[i] == kept_s[k] && !expired(
                        rows0[i],
                        now,
                        threshold,
                    );
                lemma_map_at(rows0, i);
                lemma_map_at(kept_s, k);
            }
            assert forall|id: Seq<char>|
                map_of_rows(rows0).contains_key(id) && !expired(
                    map_of_rows(rows0)[id],
                    now,
                    threshold,
                ) implies #[trigger] map_of_rows(kept_s).contains_key(id) by {
                let i = choose|i: int| 0 <= i < rows0.len() && rows0[i].identity@ == id;
                lemma_map_at(rows0, i);
                assert(kept_s.contains(rows0[i]));
                let k = choose|k: int| 0 <= k < kept_s.len() && kept_s[k] == rows0[i];
                assert(kept_s[k].identity@ == id);
            }
        }
        removed
    }
}

/// There is at most one session per identity: two rows keyed by the same
/// identity are the same row. Insert-or-refresh is thereby idempotent in
/// the table's key set.
pub proof fn lemma_at_most_one_session(t: SessionTable, id: Seq<char>, i: int, j: int)
    requires
        t.inv(),
        0 <= i < t.rows().len(),
        0 <= j < t.rows().len(),
        t.rows()[i].identity@ == id,
        t.rows()[j].identity@ == id,
    ensures
        i == j,
{
}

/// Eviction timing: a session refreshed at tick `k` is not expired — and
/// so, by the eviction scan's contract, never removed — by a scan strictly
/// before tick `k + threshold`, and is expired for every scan at or after
/// tick `k + threshold`.
pub proof fn lemma_eviction_threshold(s: UserSession, k: u64, now: u64, threshold: u64)
    requires
        s.last_activity == k,
    ensures
        now < k + threshold ==> !expired(s, now, threshold),
        now >= k + threshold ==> expired(s, now, threshold),
{
}

} // verus!
