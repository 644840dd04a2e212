//! The sidecar's table of in-flight logins: each login id maps to the
//! server's half of an OPAQUE key exchange and the time it was started.
//! Entries older than the time-to-live are pruned before every lookup and
//! every insertion.

use vstd::prelude::*;

verus! {

/// One in-flight login.
pub struct LoginEntry<S> {
    login_id: String,
    state: S,
    started_ms: u64,
}

/// The abstract content of a table: login id to (state, start time).
pub type LoginMap<S> = Map<Seq<char>, (S, u64)>;

/// A login started at `started_ms` is still live at `now_ms` when less than
/// `ttl_ms` has elapsed (a start in the future counts as no time elapsed).
pub open spec fn is_fresh(started_ms: u64, now_ms: u64, ttl_ms: u64) -> bool {
    now_ms.saturating_sub(started_ms) < ttl_ms
}

/// The table without its expired entries.
pub open spec fn pruned<S>(m: LoginMap<S>, now_ms: u64, ttl_ms: u64) -> LoginMap<S> {
    Map::new(|k: Seq<char>| m.dom().contains(k) && is_fresh(m[k].1, now_ms, ttl_ms), |k: Seq<char>| m[k])
}

/// The map of a sequence of entries (later entries win; with distinct ids
/// the order does not matter).
spec fn entries_map<S>(s: Seq<LoginEntry<S>>) -> LoginMap<S>
    decreases s.len(),
{
    if s.len() == 0 {
        Map::empty()
    } else {
        entries_map(s.drop_last()).insert(s.last().login_id@, (s.last().state, s.last().started_ms))
    }
}

/// No two entries share a login id.
spec fn distinct_ids<S>(s: Seq<LoginEntry<S>>) -> bool {
    forall|i: int, j: int|
        0 <= i < s.len() && 0 <= j < s.len() && i != j ==> s[i].login_id@ != s[j].login_id@
}

/// The map of entries with distinct ids holds exactly their ids, each with
/// its own state and start time.
proof fn lemma_entries_map<S>(s: Seq<LoginEntry<S>>)
    requires
        distinct_ids(s),
    ensures
        forall|k: Seq<char>|
            #[trigger] entries_map(s).dom().contains(k) <==> exists|i: int|
                0 <= i < s.len() && s[i].login_id@ == k,
        forall|i: int|
            0 <= i < s.len() ==> #[trigger] entries_map(s)[s[i].login_id@] == (s[i].state, s[i].started_ms),
    decreases s.len(),
{
    if s.len() > 0 {
        let t = s.drop_last();
        assert(distinct_ids(t));
        lemma_entries_map(t);
        assert forall|k: Seq<char>|
            #[trigger] entries_map(s).dom().contains(k) <==> exists|i: int|
                0 <= i < s.len() && s[i].login_id@ == k by {
            if entries_map(s).dom().contains(k) {
                if k == s.last().login_id@ {
                    assert(s[s.len() - 1].login_id@ == k);
                } else {
                    assert(entries_map(t).dom().contains(k));
                    let i = choose|i: int| 0 <= i < t.len() && t[i].login_id@ == k;
                    assert(t[i] == s[i]);
                    assert(s[i].login_id@ == k);
                }
            }
            if exists|i: int| 0 <= i < s.len() && s[i].login_id@ == k {
                let i = choose|i: int| 0 <= i < s.len() && s[i].login_id@ == k;
                if i < t.len() {
                    assert(t[i] == s[i]);
                    assert(t[i].login_id@ == k);
                    assert(entries_map(t).dom().contains(k));
                }
            }
        }
        assert forall|i: int|
            0 <= i < s.len() implies #[trigger] entries_map(s)[s[i].login_id@] == (s[i].state, s[i].started_ms) by {
            if i < t.len() {
                assert(t[i] == s[i]);
                assert(s[i].login_id@ != s[s.len() - 1].login_id@);
                assert(entries_map(t)[t[i].login_id@] == (t[i].state, t[i].started_ms));
            }
        }
    }
}

/// The table of in-flight logins.
pub struct LoginStore<S> {
    entries: Vec<LoginEntry<S>>,
}

impl<S> LoginStore<S> {
    #[verifier::type_invariant]
    spec fn inv(self) -> bool {
        distinct_ids(self.entries@)
    }

    /// The table's content.
    pub closed spec fn map(self) -> LoginMap<S> {
        entries_map(self.entries@)
    }

    /// An empty table.
    pub fn new() -> (r: LoginStore<S>)
        ensures
            r.map() == Map::<Seq<char>, (S, u64)>::empty(),
    {
        LoginStore { entries: Vec::new() }
    }

    /// How many logins are in flight.
    pub fn len(&self) -> (r: usize)
        ensures
            r == self.map().len(),
    {
        proof {
            use_type_invariant(self);
            self.lemma_len();
        }
        self.entries.len()
    }

    proof fn lemma_len(self)
        requires
            distinct_ids(self.entries@),
        ensures
            self.map().dom().finite(),
            self.map().len() == self.entries@.len(),
    {
        lemma_map_len(self.entries@);
    }

    /// The index of the entry for `login_id`, if there is one.
    fn find(&self, login_id: &String) -> (r: Option<usize>)
        ensures
            r matches Some(i) ==> i < self.entries@.len() && self.entries@[i as int].login_id@ == login_id@,
            r is None ==> forall|i: int|
                0 <= i < self.entries@.len() ==> self.entries@[i].login_id@ != login_id@,
    {
        let mut i: usize = 0;
        while i < self.entries.len()
            invariant
                i <= self.entries@.len(),
                forall|j: int| 0 <= j < i ==> self.entries@[j].login_id@ != login_id@,
            decreases self.entries@.len() - i,
        {
            if self.entries[i].login_id == *login_id {
                return Some(i);
            }
            i = i + 1;
        }
        None
    }

    /// Record an in-flight login, replacing any login with the same id.
    pub fn insert(&mut self, login_id: String, state: S, started_ms: u64)
        ensures
            final(self).map() == old(self).map().insert(login_id@, (state, started_ms)),
    {
        proof {
            use_type_invariant(&*self);
            lemma_entries_map(self.entries@);
        }
        let ghost old_entries = self.entries@;
        let ghost key = login_id@;
        let found = self.find(&login_id);
        let entry = LoginEntry { login_id, state, started_ms };
        let mut entries: Vec<LoginEntry<S>> = Vec::new();
        std::mem::swap(&mut entries, &mut self.entries);
        match found {
            Some(i) => {
                entries.set(i, entry);
                proof {
                    let s = entries@;
                    assert(distinct_ids(s));
                    lemma_entries_map(s);
                    assert(entries_map(s) =~= entries_map(old_entries).insert(key, (state, started_ms))) by {
                        assert forall|k: Seq<char>|
                            #[trigger] entries_map(s).dom().contains(k) <==> entries_map(old_entries).insert(
                                key,
                                (state, started_ms),
                            ).dom().contains(k) by {
                            if entries_map(s).dom().contains(k) {
                                let j = choose|j: int| 0 <= j < s.len() && s[j].login_id@ == k;
                                if j != i {
                                    assert(old_entries[j].login_id@ == k);
                                }
                            }
                            if entries_map(old_entries).dom().contains(k) {
                                let j = choose|j: int|
                                    0 <= j < old_entries.len() && old_entries[j].login_id@ == k;
                                assert(s[j].login_id@ == k);
                            }
                        }
                        assert forall|k: Seq<char>| #[trigger] entries_map(s).dom().contains(k) implies entries_map(s)[k]
                            == entries_map(old_entries).insert(key, (state, started_ms))[k] by {
                            let j = choose|j: int| 0 <= j < s.len() && s[j].login_id@ == k;
                            if j != i {
                                assert(old_entries[j] == s[j]);
                            }
                        }
                    }
                }
            },
            None => {
                entries.push(entry);
                proof {
                    let s = entries@;
                    assert(s.drop_last() =~= old_entries);
                    assert(distinct_ids(s));
                }
            },
        }
        self.entries = entries;
    }

    /// Take the login with id `login_id` out of the table.
    pub fn remove(&mut self, login_id: &String) -> (r: Option<S>)
        ensures
            final(self).map() == old(self).map().remove(login_id@),
            old(self).map().dom().contains(login_id@) ==> r == Some(old(self).map()[login_id@].0),
            !old(self).map().dom().contains(login_id@) ==> r is None,
    {
        proof {
            use_type_invariant(&*self);
            lemma_entries_map(self.entries@);
        }
        let ghost old_entries = self.entries@;
        let found = self.find(login_id);
        let mut entries: Vec<LoginEntry<S>> = Vec::new();
        std::mem::swap(&mut entries, &mut self.entries);
        match found {
            Some(i) => {
                let entry = entries.remove(i);
                proof {
                    let s = entries@;
                    assert(s =~= old_entries.remove(i as int));
                    assert(distinct_ids(s)) by {
                        assert forall|a: int, b: int|
                            0 <= a < s.len() && 0 <= b < s.len() && a != b implies s[a].login_id@
                                != s[b].login_id@ by {
                            let a2 = if a < i { a } else { a + 1 };
                            let b2 = if b < i { b } else { b + 1 };
                            assert(s[a] == old_entries[a2]);
                            assert(s[b] == old_entries[b2]);
                        }
                    }
                    lemma_entries_map(s);
                    assert(entries_map(s) =~= entries_map(old_entries).remove(login_id@)) by {
                        assert forall|k: Seq<char>|
                            #[trigger] entries_map(s).dom().contains(k) <==> entries_map(old_entries).remove(
                                login_id@,
                            ).dom().contains(k) by {
                            if entries_map(s).dom().contains(k) {
                                let j = choose|j: int| 0 <= j < s.len() && s[j].login_id@ == k;
                                let j2 = if j < i { j } else { j + 1 };
                                assert(old_entries[j2].login_id@ == k);
                            }
                            if entries_map(old_entries).remove(login_id@).dom().contains(k) {
                                let j = choose|j: int|
                                    0 <= j < old_entries.len() && old_entries[j].login_id@ == k;
                                assert(j != i);
                                let j2 = if j < i { j } else { j - 1 };
                                assert(s[j2].login_id@ == k);
                            }
                        }
                        assert forall|k: Seq<char>| #[trigger] entries_map(s).dom().contains(k) implies entries_map(s)[k]
                            == entries_map(old_entries).remove(login_id@)[k] by {
                            let j = choose|j: int| 0 <= j < s.len() && s[j].login_id@ == k;
                            let j2 = if j < i { j } else { j + 1 };
                            assert(old_entries[j2] == s[j]);
                        }
                    }
                }
                self.entries = entries;
                Some(entry.state)
            },
            None => {
                assert(entries_map(entries@) =~= entries_map(old_entries).remove(login_id@));
                self.entries = entries;
                None
            },
        }
    }

    /// Drop every login that is no longer fresh at `now_ms`.
    pub fn prune(&mut self, now_ms: u64, ttl_ms: u64)
        ensures
            final(self).map() == pruned(old(self).map(), now_ms, ttl_ms),
    {
        proof {
            use_type_invariant(&*self);
            lemma_entries_map(self.entries@);
        }
        let ghost old_entries = self.entries@;
        let mut rest: Vec<LoginEntry<S>> = Vec::new();
        std::mem::swap(&mut rest, &mut self.entries);
        let mut kept: Vec<LoginEntry<S>> = Vec::new();
        while rest.len() > 0
            invariant
                rest@ == old_entries.take(rest@.len() as int),
                rest@.len() <= old_entries.len(),
                distinct_ids(old_entries),
                distinct_ids(kept@),
                forall|i: int| 0 <= i < kept@.len() ==> is_fresh(#[trigger] kept@[i].started_ms, now_ms, ttl_ms),
                forall|i: int|
                    0 <= i < kept@.len() ==> exists|j: int|
                        rest@.len() <= j < old_entries.len() && old_entries[j] == #[trigger] kept@[i],
                forall|j: int|
                    rest@.len() <= j < old_entries.len() && is_fresh(
                        #[trigger] old_entries[j].started_ms,
                        now_ms,
                        ttl_ms,
                    ) ==> exists|i: int| 0 <= i < kept@.len() && kept@[i] == old_entries[j],
            decreases rest@.len(),
        {
            let ghost n = rest@.len() - 1;
            let e = rest.pop().unwrap();
            assert(e == old_entries[n]);
            let fresh = now_ms.saturating_sub(e.started_ms) < ttl_ms;
            if fresh {
                let ghost kept_before = kept@;
                kept.push(e);
                proof {
                    assert(rest@ =~= old_entries.take(rest@.len() as int));
                    assert forall|a: int, b: int|
                        0 <= a < kept@.len() && 0 <= b < kept@.len() && a != b implies kept@[a].login_id@
                            != kept@[b].login_id@ by {
                        if a < kept_before.len() && b < kept_before.len() {
                            assert(kept_before[a] == kept@[a]);
                        } else if a < kept_before.len() {
                            let ja = choose|j: int|
                                n + 1 <= j < old_entries.len() && old_entries[j] == kept_before[a];
                            assert(ja != n);
                        } else if b < kept_before.len() {
                            let jb = choose|j: int|
                                n + 1 <= j < old_entries.len() && old_entries[j] == kept_before[b];
                            assert(jb != n);
                        }
                    }
                    assert forall|i: int| 0 <= i < kept@.len() implies exists|j: int|
                        rest@.len() <= j < old_entries.len() && old_entries[j] == #[trigger] kept@[i] by {
                        if i < kept_before.len() {
                            assert(kept_before[i] == kept@[i]);
                        } else {
                            assert(old_entries[n] == kept@[i]);
                        }
                    }
                    assert forall|j: int|
                        rest@.len() <= j < old_entries.len() && is_fresh(
                            #[trigger] old_entries[j].started_ms,
                            now_ms,
                            ttl_ms,
                        ) implies exists|i: int| 0 <= i < kept@.len() && kept@[i] == old_entries[j] by {
                        if j == n {
                            assert(kept@[kept_before.len() as int] == old_entries[j]);
                        } else {
                            let i = choose|i: int| 0 <= i < kept_before.len() && kept_before[i] == old_entries[j];
                            assert(kept@[i] == old_entries[j]);
                        }
                    }
                }
            } else {
                proof {
                    assert(rest@ =~= old_entries.take(rest@.len() as int));
                }
            }
        }
        proof {
            lemma_entries_map(kept@);
            let m = entries_map(old_entries);
            assert(entries_map(kept@) =~= pruned(m, now_ms, ttl_ms)) by {
                assert forall|k: Seq<char>|
                    #[trigger] entries_map(kept@).dom().contains(k) <==> pruned(m, now_ms, ttl_ms).dom().contains(k) by {
                    if entries_map(kept@).dom().contains(k) {
                        let i = choose|i: int| 0 <= i < kept@.len() && kept@[i].login_id@ == k;
                        let j = choose|j: int| 0 <= j < old_entries.len() && old_entries[j] == kept@[i];
                        assert(m[old_entries[j].login_id@] == (old_entries[j].state, old_entries[j].started_ms));
                        assert(is_fresh(kept@[i].started_ms, now_ms, ttl_ms));
                    }
                    if pruned(m, now_ms, ttl_ms).dom().contains(k) {
                        let j = choose|j: int| 0 <= j < old_entries.len() && old_entries[j].login_id@ == k;
                        assert(m[old_entries[j].login_id@] == (old_entries[j].state, old_entries[j].started_ms));
                        assert(is_fresh(old_entries[j].started_ms, now_ms, ttl_ms));
                        let i = choose|i: int| 0 <= i < kept@.len() && kept@[i] == old_entries[j];
                        assert(kept@[i].login_id@ == k);
                    }
                }
                assert forall|k: Seq<char>| #[trigger] entries_map(kept@).dom().contains(k) implies entries_map(
                    kept@,
                )[k] == pruned(m, now_ms, ttl_ms)[k] by {
                    let i = choose|i: int| 0 <= i < kept@.len() && kept@[i].login_id@ == k;
                    let j = choose|j: int| 0 <= j < old_entries.len() && old_entries[j] == kept@[i];
                    assert(m[old_entries[j].login_id@] == (old_entries[j].state, old_entries[j].started_ms));
                }
            }
        }
        self.entries = kept;
    }
}

/// The number of entries of a table with distinct ids is the size of its map.
proof fn lemma_map_len<S>(s: Seq<LoginEntry<S>>)
    requires
        distinct_ids(s),
    ensures
        entries_map(s).dom().finite(),
        entries_map(s).len() == s.len(),
    decreases s.len(),
{
    if s.len() > 0 {
        let t = s.drop_last();
        assert(distinct_ids(t));
        lemma_map_len(t);
        lemma_entries_map(t);
        assert(!entries_map(t).dom().contains(s.last().login_id@)) by {
            if entries_map(t).dom().contains(s.last().login_id@) {
                let i = choose|i: int| 0 <= i < t.len() && t[i].login_id@ == s.last().login_id@;
                assert(s[i].login_id@ == s[s.len() - 1].login_id@);
            }
        }
    }
}

/// A login looked up while it is fresh gives back the state it was stored
/// with: whatever the table held before, inserting `state` under `login_id`
/// at `started_ms` and pruning at a time `now_ms` less than `ttl_ms` later
/// leaves exactly that entry under `login_id`.
pub proof fn lemma_fresh_login_survives<S>(
    m: LoginMap<S>,
    login_id: Seq<char>,
    state: S,
    started_ms: u64,
    now_ms: u64,
    ttl_ms: u64,
)
    requires
        is_fresh(started_ms, now_ms, ttl_ms),
    ensures
        pruned(m.insert(login_id, (state, started_ms)), now_ms, ttl_ms).dom().contains(login_id),
        pruned(m.insert(login_id, (state, started_ms)), now_ms, ttl_ms)[login_id] == (state, started_ms),
{
}

/// An expired login is gone: after pruning at a time when the entry is no
/// longer fresh, its id is absent, whatever else the table holds.
pub proof fn lemma_expired_login_gone<S>(m: LoginMap<S>, login_id: Seq<char>, now_ms: u64, ttl_ms: u64)
    requires
        m.dom().contains(login_id),
        !is_fresh(m[login_id].1, now_ms, ttl_ms),
    ensures
        !pruned(m, now_ms, ttl_ms).dom().contains(login_id),
{
}

/// A login is live exactly while less than the time-to-live has elapsed
/// since its start, whatever the time-to-live; a start in the future counts
/// as no time elapsed.
pub proof fn lemma_live_exactly_within_ttl(started_ms: u64, now_ms: u64, ttl_ms: u64)
    ensures
        started_ms <= now_ms ==> (is_fresh(started_ms, now_ms, ttl_ms) <==> now_ms - started_ms < ttl_ms),
        now_ms < started_ms ==> (is_fresh(started_ms, now_ms, ttl_ms) <==> 0 < ttl_ms),
{
}

/// Pruning keeps exactly the fresh entries and never changes one.
pub proof fn lemma_prune_keeps_fresh<S>(m: LoginMap<S>, now_ms: u64, ttl_ms: u64)
    ensures
        forall|k: Seq<char>|
            #[trigger] pruned(m, now_ms, ttl_ms).dom().contains(k) <==> (m.dom().contains(k) && is_fresh(
                m[k].1,
                now_ms,
                ttl_ms,
            )),
        forall|k: Seq<char>|
            #[trigger] pruned(m, now_ms, ttl_ms).dom().contains(k) ==> pruned(m, now_ms, ttl_ms)[k] == m[k],
{
}

} // verus!
