//! The peer metadata store: one persistent record per address. The
//! in-memory model is a vector of records with unique addresses, viewed as
//! a map from address to record; the host may mirror it to disk, the
//! registry's guarantees are stated over the map.

use vstd::prelude::*;

use crate::types::{AddrSpec, Capabilities, Error, PeerAddr, PeerData, State};

verus! {

/// Whether `s` holds a record for address `a`.
pub open spec fn sd_contains(s: Seq<PeerData>, a: AddrSpec) -> bool {
    exists|i: int| 0 <= i < s.len() && s[i].addr@ == a
}

/// The index of the record for `a`; meaningful only under uniqueness.
pub open spec fn sd_index_of(s: Seq<PeerData>, a: AddrSpec) -> int {
    choose|i: int| 0 <= i < s.len() && s[i].addr@ == a
}

/// No two records share an address.
pub open spec fn sd_unique(s: Seq<PeerData>) -> bool {
    forall|i: int, j: int| 0 <= i < j < s.len() ==> s[i].addr@ != s[j].addr@
}

/// Under uniqueness, any index holding `a` is the index of `a`.
pub proof fn lemma_sd_index_unique(s: Seq<PeerData>, a: AddrSpec, i: int)
    requires
        sd_unique(s),
        0 <= i < s.len(),
        s[i].addr@ == a,
    ensures
        sd_contains(s, a),
        sd_index_of(s, a) == i,
{
    assert(sd_contains(s, a));
    let j = sd_index_of(s, a);
    if i < j {
        assert(s[i].addr@ != s[j].addr@);
    } else if j < i {
        assert(s[j].addr@ != s[i].addr@);
    }
}

/// The map that results from upserting every record of `list` into `m`, in
/// order: a later record for the same address wins.
pub open spec fn store_upserts(m: Map<AddrSpec, PeerData>, list: Seq<PeerData>) -> Map<
    AddrSpec,
    PeerData,
>
    decreases list.len(),
{
    if list.len() == 0 {
        m
    } else {
        store_upserts(m, list.drop_last()).insert(list.last().addr@, list.last())
    }
}

/// Filtering a sequence of records with unique addresses keeps the
/// addresses unique, and introduces no record that was not there.
pub proof fn lemma_filter_keeps_unique(s: Seq<PeerData>, f: spec_fn(PeerData) -> bool)
    requires
        sd_unique(s),
    ensures
        sd_unique(s.filter(f)),
        forall|a: AddrSpec| sd_contains(s.filter(f), a) ==> sd_contains(s, a),
    decreases s.len(),
{
    reveal(Seq::filter);
    if s.len() > 0 {
        let d = s.drop_last();
        assert(sd_unique(d));
        lemma_filter_keeps_unique(d, f);
        let fd = d.filter(f);
        if f(s.last()) {
            assert(s.filter(f) == fd.push(s.last()));
        } else {
            assert(s.filter(f) == fd);
        }
        assert forall|a: AddrSpec| #[trigger]
            sd_contains(s.filter(f), a) implies sd_contains(s, a) by {
            let k = choose|k: int| 0 <= k < s.filter(f).len() && s.filter(f)[k].addr@ == a;
            if k < fd.len() {
                assert(fd[k].addr@ == a);
                assert(sd_contains(fd, a));
                assert(sd_contains(d, a));
                let j = sd_index_of(d, a);
                assert(0 <= j < d.len() && d[j].addr@ == a);
                assert(s[j].addr@ == a);
            } else {
                assert(s.filter(f)[k] == s.last());
                assert(s[s.len() - 1].addr@ == a);
            }
        }
        if f(s.last()) {
            assert(s.filter(f) == fd.push(s.last()));
            assert forall|i: int, j: int|
                0 <= i < j < s.filter(f).len() implies s.filter(f)[i].addr@ != s.filter(
                f,
            )[j].addr@ by {
                if j == s.filter(f).len() - 1 {
                    let a = fd[i].addr@;
                    assert(sd_contains(fd, a));
                    assert(sd_contains(d, a));
                    let k = sd_index_of(d, a);
                    assert(d[k].addr@ == a);
                    assert(s[k].addr@ != s[s.len() - 1].addr@);
                } else {
                    assert(fd[i].addr@ != fd[j].addr@);
                }
            }
        }
    }
}

/// Every element of a filtered sequence is an element of the sequence.
pub proof fn lemma_filter_membership<T>(s: Seq<T>, f: spec_fn(T) -> bool, k: int)
    requires
        0 <= k < s.filter(f).len(),
    ensures
        s.contains(s.filter(f)[k]),
    decreases s.len(),
{
    reveal(Seq::filter);
    if s.len() > 0 {
        let d = s.drop_last();
        if f(s.last()) && k == s.filter(f).len() - 1 {
            assert(s[s.len() - 1] == s.filter(f)[k]);
        } else {
            lemma_filter_membership(d, f, k);
            let j = choose|j: int| 0 <= j < d.len() && d[j] == d.filter(f)[k];
            assert(s[j] == s.filter(f)[k]);
        }
    }
}

/// The persistent peer store.
#[derive(Debug)]
pub struct PeerStore {
    pub records: Vec<PeerData>,
}

impl PeerStore {
    /// Validity: one record per address.
    pub open spec fn wf(self) -> bool {
        sd_unique(self.records@)
    }

    /// The store as a map from address to record.
    pub open spec fn as_map(self) -> Map<AddrSpec, PeerData> {
        Map::new(
            |a: AddrSpec| sd_contains(self.records@, a),
            |a: AddrSpec| self.records@[sd_index_of(self.records@, a)],
        )
    }

    pub fn new() -> (s: PeerStore)
        ensures
            s.wf(),
            s.as_map() == Map::<AddrSpec, PeerData>::empty(),
    {
        let s = PeerStore { records: Vec::new() };
        proof {
            assert(s.as_map() =~= Map::<AddrSpec, PeerData>::empty());
        }
        s
    }

    /// The position of the record for `addr`, if one exists.
    fn find_index(&self, addr: &PeerAddr) -> (r: Option<usize>)
        requires
            self.wf(),
        ensures
            match r {
                Some(i) => i < self.records@.len() && self.records@[i as int].addr@ == addr@
                    && sd_contains(self.records@, addr@) && sd_index_of(self.records@, addr@)
                    == i as int,
                None => !sd_contains(self.records@, addr@),
            },
    {
        let mut i: usize = 0;
        while i < self.records.len()
            invariant
                self.wf(),
                0 <= i <= self.records@.len(),
                forall|j: int| 0 <= j < i ==> self.records@[j].addr@ != addr@,
            decreases self.records@.len() - i,
        {
            if &self.records[i].addr == addr {
                proof {
                    lemma_sd_index_unique(self.records@, addr@, i as int);
                }
                return Some(i);
            }
            i = i + 1;
        }
        None
    }

    /// Look a record up. `Ok` exactly when one exists, with that record.
    pub fn get_peer(&self, addr: &PeerAddr) -> (r: Result<PeerData, Error>)
        requires
            self.wf(),
        ensures
            match r {
                Ok(d) => self.as_map().dom().contains(addr@) && d == self.as_map()[addr@],
                Err(e) => !self.as_map().dom().contains(addr@) && e is PeerNotFound,
            },
    {
        match self.find_index(addr) {
            Some(i) => Ok(self.records[i].clone()),
            None => Err(Error::PeerNotFound),
        }
    }

    /// Whether a record for `addr` exists.
    pub fn exists_peer(&self, addr: &PeerAddr) -> (r: bool)
        requires
            self.wf(),
        ensures
            r == self.as_map().dom().contains(addr@),
    {
        match self.find_index(addr) {
            Some(_) => true,
            None => false,
        }
    }

    /// Insert or overwrite the record for `p.addr`.
    pub fn save_peer(&mut self, p: &PeerData)
        requires
            old(self).wf(),
        ensures
            final(self).wf(),
            final(self).as_map() == old(self).as_map().insert(p.addr@, *p),
    {
        let ghost pre = self.records@;
        match self.find_index(&p.addr) {
            Some(i) => {
                self.records.set(i, p.clone());
                proof {
                    assert forall|b: AddrSpec| #[trigger]
                        sd_contains(self.records@, b) == (sd_contains(pre, b) || b
                            == p.addr@) by {
                        if sd_contains(self.records@, b) {
                            let k = choose|k: int|
                                0 <= k < self.records@.len() && self.records@[k].addr@ == b;
                            if k != i {
                                assert(pre[k].addr@ == b);
                            }
                        }
                        if sd_contains(pre, b) {
                            let k = choose|k: int| 0 <= k < pre.len() && pre[k].addr@ == b;
                            if k != i {
                                assert(self.records@[k].addr@ == b);
                            }
                        }
                    }
                    assert forall|b: AddrSpec| sd_contains(self.records@, b) && b != p.addr@
                        implies self.records@[sd_index_of(self.records@, b)] == pre[sd_index_of(
                        pre,
                        b,
                    )] by {
                        let k = sd_index_of(self.records@, b);
                        assert(0 <= k < self.records@.len() && self.records@[k].addr@ == b);
                        assert(k != i);
                        assert(pre[k].addr@ == b);
                        lemma_sd_index_unique(pre, b, k);
                    }
                    assert(final(self).as_map() =~= old(self).as_map().insert(p.addr@, *p)) by {
                        lemma_sd_index_unique(self.records@, p.addr@, i as int);
                    }
                }
            },
            None => {
                self.records.push(p.clone());
                proof {
                    let n = pre.len() as int;
                    assert forall|b: AddrSpec| sd_contains(self.records@, b) && b != p.addr@
                        implies sd_contains(pre, b) && self.records@[sd_index_of(self.records@, b)]
                        == pre[sd_index_of(pre, b)] by {
                        let k = sd_index_of(self.records@, b);
                        assert(0 <= k < self.records@.len() && self.records@[k].addr@ == b);
                        assert(k < n);
                        assert(pre[k].addr@ == b);
                        lemma_sd_index_unique(pre, b, k);
                        lemma_sd_index_unique(self.records@, b, k);
                    }
                    assert(sd_unique(self.records@)) by {
                        assert(forall|j: int| 0 <= j < n ==> self.records@[j] == pre[j]);
                    }
                    assert(final(self).as_map() =~= old(self).as_map().insert(p.addr@, *p)) by {
                        lemma_sd_index_unique(self.records@, p.addr@, n);
                        assert forall|b: AddrSpec| #[trigger]
                            sd_contains(pre, b) implies sd_contains(self.records@, b) by {
                            let k = sd_index_of(pre, b);
                            lemma_sd_index_unique(pre, b, k);
                            assert(self.records@[k].addr@ == b);
                        }
                    }
                }
            },
        }
    }

    /// Upsert a batch of records, in order: on a duplicated address the
    /// later record wins.
    pub fn save_peers(&mut self, list: Vec<PeerData>)
        requires
            old(self).wf(),
        ensures
            final(self).wf(),
            final(self).as_map() == store_upserts(old(self).as_map(), list@.map_values(
                |d: PeerData| d,
            )),
    {
        let ghost m0 = self.as_map();
        let ghost all = list@.map_values(|d: PeerData| d);
        let mut i: usize = 0;
        proof {
            assert(store_upserts(m0, all.take(0int)) == m0);
        }
        while i < list.len()
            invariant
                self.wf(),
                0 <= i <= list@.len(),
                all == list@.map_values(|d: PeerData| d),
                self.as_map() == store_upserts(m0, all.take(i as int)),
            decreases list@.len() - i,
        {
            self.save_peer(&list[i]);
            proof {
                assert(all.take(i + 1int).drop_last() =~= all.take(i as int));
                assert(all.take(i + 1int).last() == all[i as int]);
            }
            i = i + 1;
        }
        proof {
            assert(all.take(all.len() as int) =~= all);
        }
    }

    /// Set the state of the record for `addr`. `Ok` exactly when the
    /// record exists; only its state changes.
    pub fn update_state(&mut self, addr: &PeerAddr, new_state: State) -> (r: Result<(), Error>)
        requires
            old(self).wf(),
        ensures
            final(self).wf(),
            r is Ok <==> old(self).as_map().dom().contains(addr@),
            r is Ok ==> final(self).as_map() == old(self).as_map().insert(
                addr@,
                PeerData { flags: new_state, ..old(self).as_map()[addr@] },
            ),
            r is Err ==> *final(self) == *old(self) && r->Err_0 is PeerNotFound,
    {
        match self.get_peer(addr) {
            Ok(d) => {
                let nd = PeerData { flags: new_state, ..d };
                self.save_peer(&nd);
                Ok(())
            },
            Err(_) => Err(Error::PeerNotFound),
        }
    }

    /// Remove the record for `addr`. `Ok` exactly when one existed.
    pub fn delete_peer(&mut self, addr: &PeerAddr) -> (r: Result<(), Error>)
        requires
            old(self).wf(),
        ensures
            final(self).wf(),
            r is Ok <==> old(self).as_map().dom().contains(addr@),
            r is Ok ==> final(self).as_map() == old(self).as_map().remove(addr@),
            r is Err ==> *final(self) == *old(self) && r->Err_0 is PeerNotFound,
    {
        let ghost pre = self.records@;
        match self.find_index(addr) {
            Some(i) => {
                self.records.remove(i);
                proof {
                    assert(self.records@ =~= pre.subrange(0, i as int) + pre.subrange(
                        i + 1,
                        pre.len() as int,
                    ));
                    assert forall|b: AddrSpec| sd_contains(self.records@, b) implies sd_contains(
                        pre,
                        b,
                    ) && b != addr@ && self.records@[sd_index_of(self.records@, b)]
                        == pre[sd_index_of(pre, b)] by {
                        let k = sd_index_of(self.records@, b);
                        assert(0 <= k < self.records@.len() && self.records@[k].addr@ == b);
                        let ko = if k < i as int {
                            k
                        } else {
                            k + 1
                        };
                        assert(pre[ko].addr@ == b);
                        lemma_sd_index_unique(pre, b, ko);
                        if b == addr@ {
                            lemma_sd_index_unique(pre, b, i as int);
                        }
                        lemma_sd_index_unique(self.records@, b, k);
                    }
                    assert forall|b: AddrSpec| sd_contains(pre, b) && b != addr@
                        implies sd_contains(self.records@, b) by {
                        let k = sd_index_of(pre, b);
                        lemma_sd_index_unique(pre, b, k);
                        if k < i as int {
                            assert(self.records@[k].addr@ == b);
                        } else {
                            assert(k > i as int);
                            assert(self.records@[k - 1].addr@ == b);
                        }
                    }
                    assert(final(self).as_map() =~= old(self).as_map().remove(addr@));
                }
                Ok(())
            },
            None => Err(Error::PeerNotFound),
        }
    }

    /// All records, in store order.
    pub fn all_peers(&self) -> (r: Vec<PeerData>)
        requires
            self.wf(),
        ensures
            r@ == self.records@,
    {
        let mut r: Vec<PeerData> = Vec::new();
        let mut i: usize = 0;
        while i < self.records.len()
            invariant
                0 <= i <= self.records@.len(),
                r@ == self.records@.subrange(0, i as int),
            decreases self.records@.len() - i,
        {
            r.push(self.records[i].clone());
            assert(r@ =~= self.records@.subrange(0, i + 1int));
            i = i + 1;
        }
        assert(r@ =~= self.records@);
        r
    }

    /// The records in the given state that advertise every bit of `cap`,
    /// in store order.
    pub fn find_peers(&self, state: State, cap: Capabilities) -> (r: Vec<PeerData>)
        requires
            self.wf(),
        ensures
            r@ == self.records@.filter(
                |d: PeerData| d.flags == state && d.capabilities.spec_contains(cap),
            ),
    {
        let mut r: Vec<PeerData> = Vec::new();
        let mut i: usize = 0;
        proof {
            assert(self.records@.take(0int).filter(
                |d: PeerData| d.flags == state && d.capabilities.spec_contains(cap),
            ) =~= Seq::<PeerData>::empty());
        }
        while i < self.records.len()
            invariant
                0 <= i <= self.records@.len(),
                r@ == self.records@.take(i as int).filter(
                    |d: PeerData| d.flags == state && d.capabilities.spec_contains(cap),
                ),
            decreases self.records@.len() - i,
        {
            let d = &self.records[i];
            proof {
                assert(self.records@.take(i + 1int).drop_last() =~= self.records@.take(i as int));
                reveal_with_fuel(Seq::filter, 2);
            }
            if d.flags == state && d.capabilities.contains(cap) {
                r.push(d.clone());
            }
            i = i + 1;
        }
        proof {
            assert(self.records@.take(self.records@.len() as int) =~= self.records@);
        }
        r
    }

    /// Drop every defunct record whose last connection is at or before
    /// `cutoff`; everything else stays, in order.
    pub fn delete_defunct_older_than(&mut self, cutoff: i64)
        requires
            old(self).wf(),
        ensures
            final(self).wf(),
            final(self).records@ == old(self).records@.filter(
                |d: PeerData| !(d.flags == State::Defunct && d.last_connected <= cutoff),
            ),
    {
        let ghost pre = self.records@;
        let mut kept: Vec<PeerData> = Vec::new();
        let mut i: usize = 0;
        proof {
            assert(pre.take(0int).filter(
                |d: PeerData| !(d.flags == State::Defunct && d.last_connected <= cutoff),
            ) =~= Seq::<PeerData>::empty());
        }
        while i < self.records.len()
            invariant
                self.records@ == pre,
                0 <= i <= pre.len(),
                kept@ == pre.take(i as int).filter(
                    |d: PeerData| !(d.flags == State::Defunct && d.last_connected <= cutoff),
                ),
            decreases pre.len() - i,
        {
            let d = &self.records[i];
            proof {
                assert(pre.take(i + 1int).drop_last() =~= pre.take(i as int));
                reveal_with_fuel(Seq::filter, 2);
            }
            if !(d.flags == State::Defunct && d.last_connected <= cutoff) {
                kept.push(d.clone());
            }
            i = i + 1;
        }
        proof {
            assert(pre.take(pre.len() as int) =~= pre);
        }
        self.records = kept;
        proof {
            lemma_filter_keeps_unique(
                pre,
                |d: PeerData| !(d.flags == State::Defunct && d.last_connected <= cutoff),
            );
        }
    }
}

} // verus!
