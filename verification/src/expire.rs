//! A keyed store whose entries carry a deadline.
//!
//! Every operation takes the current time as a plain argument; the embedding
//! program reads the clock and schedules sweeps.  An entry is stored with a
//! period (`ttl`); reads that renew push the deadline to `now + ttl`.  A
//! sweep removes exactly the entries whose deadline has passed and hands them
//! back, so the caller can run the user-visible eviction effects.

use vstd::prelude::*;

verus! {

/// Keys of the expiring stores: cheap to duplicate, comparable by view.
pub trait StoreKey: Sized + View {
    fn key_eq(&self, other: &Self) -> (r: bool)
        ensures
            r == (self@ == other@),
    ;

    fn dup(&self) -> (r: Self)
        ensures
            r@ == self@,
    ;
}

impl StoreKey for String {
    fn key_eq(&self, other: &Self) -> (r: bool) {
        self.eq(other)
    }

    fn dup(&self) -> (r: Self) {
        self.clone()
    }
}

/// One stored entry: the key, the value, the current deadline, and the
/// period that renewals grant anew.
pub struct StoreEntry<K, V> {
    pub key: K,
    pub val: V,
    pub deadline: u64,
    pub ttl: u64,
}

/// Whether `s` holds an entry keyed `k`.
pub open spec fn sk<K: StoreKey, V>(s: Seq<StoreEntry<K, V>>, k: K::V) -> bool {
    exists|i: int| 0 <= i < s.len() && s[i].key@ == k
}

/// The index of the entry keyed `k` (meaningful under `sk`).
pub open spec fn ski<K: StoreKey, V>(s: Seq<StoreEntry<K, V>>, k: K::V) -> int {
    choose|i: int| 0 <= i < s.len() && s[i].key@ == k
}

/// The entry keyed `k` (meaningful under `sk`).
pub open spec fn se<K: StoreKey, V>(s: Seq<StoreEntry<K, V>>, k: K::V) -> StoreEntry<K, V> {
    s[ski(s, k)]
}

/// Keys are pairwise distinct.
pub open spec fn s_wf<K: StoreKey, V>(s: Seq<StoreEntry<K, V>>) -> bool {
    forall|i: int, j: int| 0 <= i < j < s.len() ==> s[i].key@ != s[j].key@
}

/// The expiring map.
pub struct ExpireMap<K, V> {
    pub entries: Vec<StoreEntry<K, V>>,
}

impl<K: StoreKey, V> ExpireMap<K, V> {
    pub open spec fn wf(self) -> bool {
        s_wf(self.entries@)
    }

    pub open spec fn contains_key(self, k: K::V) -> bool {
        sk(self.entries@, k)
    }

    pub open spec fn entry_of(self, k: K::V) -> StoreEntry<K, V> {
        se(self.entries@, k)
    }

    pub open spec fn val_of(self, k: K::V) -> V {
        self.entry_of(k).val
    }

    pub open spec fn deadline_of(self, k: K::V) -> u64 {
        self.entry_of(k).deadline
    }

    pub open spec fn ttl_of(self, k: K::V) -> u64 {
        self.entry_of(k).ttl
    }

    /// The eviction predicate: present, and the deadline has passed.
    pub open spec fn is_expired(self, k: K::V, now: u64) -> bool {
        self.contains_key(k) && self.deadline_of(k) <= now
    }

    /// Both stores hold the same keys with the same values and periods;
    /// deadlines may differ (renewals touch nothing else).
    pub open spec fn vals_match(self, other: Self) -> bool {
        forall|k: K::V|
            #![trigger self.contains_key(k)]
            #![trigger other.contains_key(k)]
            self.contains_key(k) == other.contains_key(k) && (self.contains_key(k)
                ==> self.val_of(k) == other.val_of(k) && self.ttl_of(k) == other.ttl_of(k))
    }

    /// The entry keyed `k2` is present and untouched.
    pub open spec fn same_entry(self, other: Self, k2: K::V) -> bool {
        self.contains_key(k2) == other.contains_key(k2) && (self.contains_key(k2)
            ==> self.entry_of(k2) == other.entry_of(k2))
    }

    pub fn new() -> (m: Self)
        ensures
            m.wf(),
            m.entries@.len() == 0,
            forall|k: K::V| !m.contains_key(k),
    {
        ExpireMap { entries: Vec::new() }
    }

    pub fn size(&self) -> (n: usize)
        ensures
            n == self.entries@.len(),
    {
        self.entries.len()
    }

    fn find_idx(&self, k: &K) -> (r: Option<usize>)
        requires
            self.wf(),
        ensures
            match r {
                Some(i) => i < self.entries@.len() && self.entries@[i as int].key@ == k@
                    && self.contains_key(k@) && ski(self.entries@, k@) == i,
                None => !self.contains_key(k@),
            },
    {
        let n = self.entries.len();
        let mut i: usize = 0;
        while i < n
            invariant
                n == self.entries@.len(),
                i <= n,
                self.wf(),
                forall|j: int| 0 <= j < i ==> self.entries@[j].key@ != k@,
            decreases n - i,
        {
            if self.entries[i].key.key_eq(k) {
                proof {
                    let c = ski(self.entries@, k@);
                    assert(0 <= c < self.entries@.len() && self.entries@[c].key@ == k@);
                    assert(c == i);
                }
                return Some(i);
            }
            i += 1;
        }
        None
    }

    /// Stores `v` under `k` with deadline `now + ttl` (saturating), replacing
    /// any earlier entry under the same key.  Other entries are untouched.
    pub fn insert(&mut self, now: u64, k: K, v: V, ttl: u64)
        requires
            old(self).wf(),
        ensures
            final(self).wf(),
            final(self).contains_key(k@),
            final(self).entry_of(k@).key@ == k@,
            final(self).val_of(k@) == v,
            final(self).ttl_of(k@) == ttl,
            final(self).deadline_of(k@) == now.saturating_add(ttl),
            forall|k2: K::V| k2 != k@ ==> final(self).same_entry(*old(self), k2),
            final(self).entries@.len() == old(self).entries@.len() + (if old(
                self,
            ).contains_key(k@) {
                0int
            } else {
                1int
            }),
    {
        let deadline = now.saturating_add(ttl);
        let found = self.find_idx(&k);
        match found {
            Some(i) => {
                let e = &mut self.entries[i];
                e.val = v;
                e.deadline = deadline;
                e.ttl = ttl;
                proof {
                    let s0 = old(self).entries@;
                    let s1 = self.entries@;
                    assert forall|k2: K::V| k2 != k@ implies self.same_entry(
                        *old(self),
                        k2,
                    ) by {
                        if sk(s0, k2) {
                            let j = ski(s0, k2);
                            assert(s1[j].key@ == k2);
                            assert(sk(s1, k2));
                            assert(se(s1, k2) == s1[ski(s1, k2)]);
                            assert(ski(s1, k2) == j);
                            assert(j != i);
                        }
                        if sk(s1, k2) {
                            let j = ski(s1, k2);
                            assert(s0[j].key@ == k2);
                            assert(sk(s0, k2));
                        }
                    }
                    assert(ski(self.entries@, k@) == i);
                }
            },
            None => {
                self.entries.push(StoreEntry { key: k, val: v, deadline, ttl });
                proof {
                    let s0 = old(self).entries@;
                    let s1 = self.entries@;
                    let n = s0.len() as int;
                    assert(s1[n].key@ == k@);
                    assert(sk(s1, k@));
                    assert(ski(s1, k@) == n);
                    assert forall|k2: K::V| k2 != k@ implies self.same_entry(
                        *old(self),
                        k2,
                    ) by {
                        if sk(s0, k2) {
                            let j = ski(s0, k2);
                            assert(s1[j].key@ == k2);
                            assert(ski(s1, k2) == j);
                        }
                        if sk(s1, k2) {
                            let j = ski(s1, k2);
                            assert(j < n);
                            assert(s0[j].key@ == k2);
                        }
                    }
                }
            },
        }
    }

    /// Looks the key up; when present, resets the deadline to `now` plus the
    /// stored period and reports the entry's index.  The value is untouched.
    pub fn get_and_renew(&mut self, now: u64, k: &K) -> (r: Option<usize>)
        requires
            old(self).wf(),
        ensures
            final(self).wf(),
            r is Some <==> old(self).contains_key(k@),
            final(self).vals_match(*old(self)),
            match r {
                Some(i) => {
                    &&& i < final(self).entries@.len()
                    &&& final(self).entries@[i as int].key@ == k@
                    &&& ski(final(self).entries@, k@) == i
                    &&& final(self).contains_key(k@)
                    &&& final(self).val_of(k@) == old(self).val_of(k@)
                    &&& final(self).ttl_of(k@) == old(self).ttl_of(k@)
                    &&& final(self).deadline_of(k@) == now.saturating_add(old(self).ttl_of(k@))
                    &&& forall|k2: K::V| k2 != k@ ==> final(self).same_entry(*old(self), k2)
                    &&& final(self).entries@.len() == old(self).entries@.len()
                },
                None => *final(self) == *old(self),
            },
    {
        let found = self.find_idx(k);
        match found {
            Some(i) => {
                let ttl = self.entries[i].ttl;
                let e = &mut self.entries[i];
                e.deadline = now.saturating_add(ttl);
                proof {
                    let s0 = old(self).entries@;
                    let s1 = self.entries@;
                    assert(ski(s1, k@) == i);
                    assert forall|k2: K::V| k2 != k@ implies self.same_entry(
                        *old(self),
                        k2,
                    ) by {
                        if sk(s0, k2) {
                            let j = ski(s0, k2);
                            assert(s1[j].key@ == k2);
                            assert(ski(s1, k2) == j);
                            assert(j != i);
                        }
                        if sk(s1, k2) {
                            let j = ski(s1, k2);
                            assert(s0[j].key@ == k2);
                        }
                    }
                    assert forall|k2: K::V| #![trigger self.contains_key(k2)] #![trigger old(self).contains_key(k2)]
                        self.contains_key(k2) == old(self).contains_key(k2) && (self.contains_key(
                        k2,
                    ) ==> self.val_of(k2) == old(self).val_of(k2) && self.ttl_of(k2) == old(
                        self,
                    ).ttl_of(k2)) by {
                        if k2 != k@ {
                            assert(self.same_entry(*old(self), k2));
                        }
                    }
                }
                Some(i)
            },
            None => None,
        }
    }

    /// Reads the value under `k` without renewing.
    pub fn get_val(&self, k: &K) -> (r: Option<&V>)
        requires
            self.wf(),
        ensures
            r is Some <==> self.contains_key(k@),
            r matches Some(v) ==> *v == self.val_of(k@),
    {
        let found = self.find_idx(k);
        match found {
            Some(i) => Some(&self.entries[i].val),
            None => None,
        }
    }

    /// Returns the index of the entry under `k`, renewing its deadline; when
    /// absent first installs `v` with period `ttl`.  An existing value is
    /// kept, not replaced.
    pub fn optionally_get_with(&mut self, now: u64, k: K, ttl: u64, v: V) -> (i: usize)
        requires
            old(self).wf(),
        ensures
            final(self).wf(),
            final(self).contains_key(k@),
            i < final(self).entries@.len(),
            final(self).entries@[i as int].key@ == k@,
            ski(final(self).entries@, k@) == i,
            old(self).contains_key(k@) ==> {
                &&& final(self).val_of(k@) == old(self).val_of(k@)
                &&& final(self).ttl_of(k@) == old(self).ttl_of(k@)
                &&& final(self).deadline_of(k@) == now.saturating_add(old(self).ttl_of(k@))
            },
            !old(self).contains_key(k@) ==> {
                &&& final(self).val_of(k@) == v
                &&& final(self).ttl_of(k@) == ttl
                &&& final(self).deadline_of(k@) == now.saturating_add(ttl)
            },
            forall|k2: K::V| k2 != k@ ==> final(self).same_entry(*old(self), k2),
    {
        let found = self.get_and_renew(now, &k);
        match found {
            Some(i) => i,
            None => {
                let deadline = now.saturating_add(ttl);
                self.entries.push(StoreEntry { key: k, val: v, deadline, ttl });
                let i = self.entries.len() - 1;
                proof {
                    let s0 = old(self).entries@;
                    let s1 = self.entries@;
                    assert(s1[i as int].key@ == k@);
                    assert(ski(s1, k@) == i);
                    assert forall|k2: K::V| k2 != k@ implies self.same_entry(
                        *old(self),
                        k2,
                    ) by {
                        if sk(s0, k2) {
                            let j = ski(s0, k2);
                            assert(s1[j].key@ == k2);
                            assert(ski(s1, k2) == j);
                        }
                        if sk(s1, k2) {
                            let j = ski(s1, k2);
                            assert(j < i);
                            assert(s0[j].key@ == k2);
                        }
                    }
                }
                i
            },
        }
    }

    /// A snapshot of the store: each key beside a clone of its value.
    pub fn key_values(&self) -> (r: Vec<(K, V)>) where V: Clone
        ensures
            r@.len() == self.entries@.len(),
            forall|i: int|
                0 <= i < r@.len() ==> (#[trigger] r@[i]).0@ == self.entries@[i].key@ && cloned::<
                    V,
                >(self.entries@[i].val, r@[i].1),
    {
        let mut out: Vec<(K, V)> = Vec::new();
        let mut i: usize = 0;
        while i < self.entries.len()
            invariant
                i <= self.entries@.len(),
                out@.len() == i,
                forall|j: int|
                    0 <= j < i ==> (#[trigger] out@[j]).0@ == self.entries@[j].key@ && cloned::<
                        V,
                    >(self.entries@[j].val, out@[j].1),
            decreases self.entries@.len() - i,
        {
            let e = &self.entries[i];
            out.push((e.key.dup(), e.val.clone()));
            i += 1;
        }
        out
    }

    /// The value at a known index.
    pub fn val_at(&self, i: usize) -> (r: &V)
        requires
            i < self.entries@.len(),
        ensures
            *r == self.entries@[i as int].val,
    {
        &self.entries[i].val
    }

    /// Removes the entry under `k`, handing it back.
    pub fn remove(&mut self, k: &K) -> (r: Option<StoreEntry<K, V>>)
        requires
            old(self).wf(),
        ensures
            final(self).wf(),
            r is Some <==> old(self).contains_key(k@),
            r matches Some(e) ==> e == old(self).entry_of(k@),
            !final(self).contains_key(k@),
            forall|k2: K::V| k2 != k@ ==> final(self).same_entry(*old(self), k2),
    {
        let found = self.find_idx(k);
        match found {
            Some(i) => {
                let e = self.entries.remove(i);
                proof {
                    let s0 = old(self).entries@;
                    let s1 = self.entries@;
                    assert(s1 =~= s0.remove(i as int));
                    assert forall|k2: K::V| sk(s1, k2) implies k2 != k@ && sk(s0, k2) by {
                        let j = ski(s1, k2);
                        if j < i {
                            assert(s0[j].key@ == k2);
                        } else {
                            assert(s0[j + 1].key@ == k2);
                        }
                    }
                    assert forall|k2: K::V| k2 != k@ implies self.same_entry(
                        *old(self),
                        k2,
                    ) by {
                        if sk(s0, k2) {
                            let j = ski(s0, k2);
                            assert(j != i);
                            if j < i {
                                assert(s1[j].key@ == k2);
                                assert(ski(s1, k2) == j);
                            } else {
                                assert(s1[j - 1].key@ == k2);
                                assert(ski(s1, k2) == j - 1);
                            }
                        }
                    }
                }
                Some(e)
            },
            None => None,
        }
    }

    /// The scheduled check for one key: evicts the entry exactly when its
    /// deadline has passed, handing it back for the eviction effects.  A
    /// deadline pushed into the future by a renewal leaves the entry alone.
    pub fn check_expired(&mut self, now: u64, k: &K) -> (r: Option<StoreEntry<K, V>>)
        requires
            old(self).wf(),
        ensures
            final(self).wf(),
            r is Some <==> old(self).is_expired(k@, now),
            r matches Some(e) ==> e == old(self).entry_of(k@) && !final(self).contains_key(k@),
            r is None ==> *final(self) == *old(self),
            forall|k2: K::V| k2 != k@ ==> final(self).same_entry(*old(self), k2),
    {
        let found = self.find_idx(k);
        match found {
            Some(i) => {
                if self.entries[i].deadline <= now {
                    self.remove(k)
                } else {
                    None
                }
            },
            None => None,
        }
    }

    /// A sweep at time `now`: removes exactly the entries whose deadline has
    /// passed and hands them back; the survivors are untouched.
    pub fn take_expired(&mut self, now: u64) -> (gone: Vec<StoreEntry<K, V>>)
        requires
            old(self).wf(),
        ensures
            final(self).wf(),
            s_wf(gone@),
            forall|k2: K::V|
                final(self).contains_key(k2) <==> (old(self).contains_key(k2) && old(
                    self,
                ).deadline_of(k2) > now),
            forall|k2: K::V| #[trigger]
                final(self).contains_key(k2) ==> final(self).entry_of(k2) == old(self).entry_of(
                    k2,
                ),
            forall|k2: K::V|
                sk(gone@, k2) <==> (old(self).contains_key(k2) && old(self).deadline_of(k2)
                    <= now),
            forall|k2: K::V| #[trigger] sk(gone@, k2) ==> se(gone@, k2) == old(self).entry_of(k2),
    {
        let mut kept: Vec<StoreEntry<K, V>> = Vec::new();
        let mut gone: Vec<StoreEntry<K, V>> = Vec::new();
        let ghost s0 = self.entries@;
        proof {
            assert(self.entries@ =~= s0.subrange(0, self.entries@.len() as int));
        }
        while self.entries.len() > 0
            invariant
                s_wf(s0),
                self.entries@.len() <= s0.len(),
                self.entries@ == s0.subrange(0, self.entries@.len() as int),
                s_wf(kept@),
                s_wf(gone@),
                forall|k2: K::V|
                    sk(kept@, k2) <==> (sk(
                        s0.subrange(self.entries@.len() as int, s0.len() as int),
                        k2,
                    ) && se(s0.subrange(self.entries@.len() as int, s0.len() as int), k2).deadline
                        > now),
                forall|k2: K::V| #[trigger]
                    sk(kept@, k2) ==> se(kept@, k2) == se(
                        s0.subrange(self.entries@.len() as int, s0.len() as int),
                        k2,
                    ),
                forall|k2: K::V|
                    sk(gone@, k2) <==> (sk(
                        s0.subrange(self.entries@.len() as int, s0.len() as int),
                        k2,
                    ) && se(s0.subrange(self.entries@.len() as int, s0.len() as int), k2).deadline
                        <= now),
                forall|k2: K::V| #[trigger]
                    sk(gone@, k2) ==> se(gone@, k2) == se(
                        s0.subrange(self.entries@.len() as int, s0.len() as int),
                        k2,
                    ),
            decreases self.entries@.len(),
        {
            let ghost n_before = self.entries@.len() as int;
            let ghost tail_before = s0.subrange(n_before, s0.len() as int);
            let popped = self.entries.pop();
            match popped {
                Some(e) => {
                    let ghost n = self.entries@.len() as int;
                    let ghost tail = s0.subrange(n, s0.len() as int);
                    proof {
                        assert(self.entries@ =~= s0.subrange(0, n));
                        assert(s0.subrange(0, n_before)[n_before - 1] == s0[n]);
                        assert(e == s0[n]);
                        assert(tail =~= seq![e] + tail_before);
                        assert forall|i: int, j: int| 0 <= i < j < tail.len() implies tail[i].key@
                            != tail[j].key@ by {
                            assert(tail[i] == s0[n + i]);
                            assert(tail[j] == s0[n + j]);
                        }
                        lemma_cons_entry(tail_before, e, tail);
                        assert(!sk(gone@, e.key@) && !sk(kept@, e.key@));
                    }
                    if e.deadline <= now {
                        let ghost g0 = gone@;
                        let ghost p0 = kept@;
                        gone.push(e);
                        proof {
                            lemma_push_entry(g0, e);
                            assert forall|k2: K::V|
                                sk(gone@, k2) <==> (sk(tail, k2) && se(tail, k2).deadline
                                    <= now) by {
                                if k2 != e.key@ {
                                    assert(sk(gone@, k2) == sk(g0, k2) && (sk(g0, k2) ==> se(
                                        gone@,
                                        k2,
                                    ) == se(g0, k2)));
                                    assert(sk(tail, k2) == sk(tail_before, k2) && (sk(
                                        tail_before,
                                        k2,
                                    ) ==> se(tail, k2) == se(tail_before, k2)));
                                }
                            }
                            assert forall|k2: K::V| #[trigger] sk(gone@, k2) implies se(gone@, k2)
                                == se(tail, k2) by {
                                if k2 != e.key@ {
                                    assert(sk(g0, k2) && se(gone@, k2) == se(g0, k2));
                                    assert(se(tail, k2) == se(tail_before, k2));
                                }
                            }
                            assert forall|k2: K::V|
                                sk(p0, k2) <==> (sk(tail, k2) && se(tail, k2).deadline > now) by {
                                if k2 != e.key@ {
                                    assert(sk(tail, k2) == sk(tail_before, k2) && (sk(
                                        tail_before,
                                        k2,
                                    ) ==> se(tail, k2) == se(tail_before, k2)));
                                }
                            }
                            assert forall|k2: K::V| #[trigger] sk(p0, k2) implies se(p0, k2) == se(
                                tail,
                                k2,
                            ) by {
                                assert(k2 != e.key@);
                                assert(se(tail, k2) == se(tail_before, k2));
                            }
                        }
                    } else {
                        let ghost g0 = gone@;
                        let ghost p0 = kept@;
                        kept.push(e);
                        proof {
                            lemma_push_entry(p0, e);
                            assert forall|k2: K::V|
                                sk(kept@, k2) <==> (sk(tail, k2) && se(tail, k2).deadline
                                    > now) by {
                                if k2 != e.key@ {
                                    assert(sk(kept@, k2) == sk(p0, k2) && (sk(p0, k2) ==> se(
                                        kept@,
                                        k2,
                                    ) == se(p0, k2)));
                                    assert(sk(tail, k2) == sk(tail_before, k2) && (sk(
                                        tail_before,
                                        k2,
                                    ) ==> se(tail, k2) == se(tail_before, k2)));
                                }
                            }
                            assert forall|k2: K::V| #[trigger] sk(kept@, k2) implies se(kept@, k2)
                                == se(tail, k2) by {
                                if k2 != e.key@ {
                                    assert(sk(p0, k2) && se(kept@, k2) == se(p0, k2));
                                    assert(se(tail, k2) == se(tail_before, k2));
                                }
                            }
                            assert forall|k2: K::V|
                                sk(g0, k2) <==> (sk(tail, k2) && se(tail, k2).deadline <= now) by {
                                if k2 != e.key@ {
                                    assert(sk(tail, k2) == sk(tail_before, k2) && (sk(
                                        tail_before,
                                        k2,
                                    ) ==> se(tail, k2) == se(tail_before, k2)));
                                }
                            }
                            assert forall|k2: K::V| #[trigger] sk(g0, k2) implies se(g0, k2) == se(
                                tail,
                                k2,
                            ) by {
                                assert(k2 != e.key@);
                                assert(se(tail, k2) == se(tail_before, k2));
                            }
                        }
                    }
                },
                None => {
                    proof {
                        assert(false);
                    }
                },
            }
        }
        proof {
            assert(s0.subrange(0, s0.len() as int) =~= s0);
        }
        self.entries = kept;
        gone
    }
}

/// Appending an entry with a fresh key keeps the keys unique; it adds that
/// key and leaves every other entry where it was.
proof fn lemma_push_entry<K: StoreKey, V>(s: Seq<StoreEntry<K, V>>, e: StoreEntry<K, V>)
    requires
        s_wf(s),
        !sk(s, e.key@),
    ensures
        s_wf(s.push(e)),
        sk(s.push(e), e.key@),
        se(s.push(e), e.key@) == e,
        forall|k2: <K as View>::V|
            k2 != e.key@ ==> (sk(s.push(e), k2) == sk(s, k2) && (sk(s, k2) ==> se(s.push(e), k2)
                == se(s, k2))),
{
    let s1 = s.push(e);
    let n = s.len() as int;
    assert(s1[n] == e);
    assert forall|i: int, j: int| 0 <= i < j < s1.len() implies s1[i].key@ != s1[j].key@ by {
        if j < n {
            assert(s1[i] == s[i] && s1[j] == s[j]);
        } else {
            assert(s1[i] == s[i]);
            if s[i].key@ == e.key@ {
                assert(sk(s, e.key@));
            }
        }
    }
    assert(sk(s1, e.key@));
    let c = ski(s1, e.key@);
    if c < n {
        assert(s1[c] == s[c]);
        assert(sk(s, e.key@));
    }
    assert(se(s1, e.key@) == e);
    assert forall|k2: <K as View>::V| k2 != e.key@ implies (sk(s1, k2) == sk(s, k2) && (sk(s, k2)
        ==> se(s1, k2) == se(s, k2))) by {
        if sk(s, k2) {
            let j = ski(s, k2);
            assert(s1[j].key@ == k2);
            assert(sk(s1, k2));
            let j1 = ski(s1, k2);
            assert(j1 == j);
        }
        if sk(s1, k2) {
            let j1 = ski(s1, k2);
            assert(j1 != n);
            assert(s[j1].key@ == k2);
            assert(sk(s, k2));
        }
    }
}

/// Reading `tail` as `e` in front of `rest`: when the keys of the whole are
/// unique, the entry of `e.key` is `e` itself, and every other key resolves
/// in `rest`.
proof fn lemma_cons_entry<K: StoreKey, V>(
    rest: Seq<StoreEntry<K, V>>,
    e: StoreEntry<K, V>,
    tail: Seq<StoreEntry<K, V>>,
)
    requires
        tail =~= seq![e] + rest,
        s_wf(tail),
    ensures
        s_wf(rest),
        sk(tail, e.key@),
        se(tail, e.key@) == e,
        !sk(rest, e.key@),
        forall|k2: <K as View>::V|
            k2 != e.key@ ==> (sk(tail, k2) == sk(rest, k2) && (sk(rest, k2) ==> se(tail, k2) == se(
                rest,
                k2,
            ))),
{
    assert(tail[0] == e);
    assert forall|i: int, j: int| 0 <= i < j < rest.len() implies rest[i].key@ != rest[j].key@ by {
        assert(tail[i + 1] == rest[i] && tail[j + 1] == rest[j]);
    }
    assert(sk(tail, e.key@));
    let c = ski(tail, e.key@);
    if c > 0 {
        assert(tail[0].key@ == e.key@);
    }
    assert(se(tail, e.key@) == e);
    if sk(rest, e.key@) {
        let j = ski(rest, e.key@);
        assert(tail[j + 1].key@ == e.key@ && tail[0].key@ == e.key@);
    }
    assert forall|k2: <K as View>::V| k2 != e.key@ implies (sk(tail, k2) == sk(rest, k2) && (sk(
        rest,
        k2,
    ) ==> se(tail, k2) == se(rest, k2))) by {
        if sk(rest, k2) {
            let j = ski(rest, k2);
            assert(tail[j + 1].key@ == k2);
            assert(sk(tail, k2));
            let j1 = ski(tail, k2);
            assert(j1 != 0);
            assert(rest[j1 - 1].key@ == k2);
            assert(j1 - 1 == j);
            assert(se(tail, k2) == tail[j1] && tail[j1] == rest[j1 - 1]);
            assert(ski(rest, k2) == j1 - 1);
        }
        if sk(tail, k2) {
            let j1 = ski(tail, k2);
            assert(j1 != 0);
            assert(rest[j1 - 1].key@ == k2);
            assert(sk(rest, k2));
        }
    }
}

/// `vals_match` chains: two renewal-only steps are one.
pub proof fn lemma_vals_match_trans<K: StoreKey, V>(
    a: ExpireMap<K, V>,
    b: ExpireMap<K, V>,
    c: ExpireMap<K, V>,
)
    requires
        c.vals_match(b),
        b.vals_match(a),
    ensures
        c.vals_match(a),
{
    assert forall|k: K::V|
        #![trigger c.contains_key(k)]
        #![trigger a.contains_key(k)]
        c.contains_key(k) == a.contains_key(k) && (c.contains_key(k) ==> c.val_of(k) == a.val_of(
            k,
        ) && c.ttl_of(k) == a.ttl_of(k)) by {
        assert(c.contains_key(k) == b.contains_key(k));
        assert(b.contains_key(k) == a.contains_key(k));
    }
}

/// Renewal defers eviction: an entry whose deadline was set at time `t`
/// (renewal or insertion with period `ttl`) is not expired at any time
/// strictly before `t + ttl`, so no sweep or scheduled check before that
/// moment evicts it.
pub proof fn lemma_renewal_defers_eviction<K: StoreKey, V>(
    m: ExpireMap<K, V>,
    k: K::V,
    t: u64,
    ttl: u64,
    now: u64,
)
    requires
        m.contains_key(k),
        m.deadline_of(k) == t.saturating_add(ttl),
        now < t + ttl,
        t + ttl <= u64::MAX,
    ensures
        !m.is_expired(k, now),
{
}

} // verus!
