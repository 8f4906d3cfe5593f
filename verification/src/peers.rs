//! The peer registry: the authoritative map of live peer handles plus the
//! persistent store of peer metadata. Admission, banning, broadcast
//! fan-out and periodic pruning all live here.
//!
//! Contracts are stated over two maps: `live_map`, address to live peer,
//! and `store_map`, address to persistent record.

use vstd::prelude::*;

use crate::adapters::ChainAdapter;
use crate::clock::now_utc_seconds;
use crate::peer::Peer;
use crate::store::PeerStore;
use crate::types::{
    addr_views, addrs_contain, AddrSpec, Capabilities, Error, P2PConfig, PeerAddr, PeerData, State,
    ReasonForBan, clone_addrs,
};

verus! {

/// How long a boost hint stays in force, in seconds.
pub const BOOST_WINDOW_SECS: i64 = 120;

/// The most peer addresses one gossip reply hands out.
pub const MAX_PEER_ADDRS: usize = 256;

/// Whether `s` holds a peer with address `a`.
pub open spec fn sp_contains(s: Seq<Peer>, a: AddrSpec) -> bool {
    exists|i: int| 0 <= i < s.len() && s[i].info.addr@ == a
}

/// The index of the peer with address `a`; meaningful only under
/// uniqueness.
pub open spec fn sp_index_of(s: Seq<Peer>, a: AddrSpec) -> int {
    choose|i: int| 0 <= i < s.len() && s[i].info.addr@ == a
}

/// No two peers share an address.
pub open spec fn sp_unique(s: Seq<Peer>) -> bool {
    forall|i: int, j: int| 0 <= i < j < s.len() ==> s[i].info.addr@ != s[j].info.addr@
}

/// Under uniqueness, any index holding `a` is the index of `a`.
pub proof fn lemma_sp_index_unique(s: Seq<Peer>, a: AddrSpec, i: int)
    requires
        sp_unique(s),
        0 <= i < s.len(),
        s[i].info.addr@ == a,
    ensures
        sp_contains(s, a),
        sp_index_of(s, a) == i,
{
    assert(sp_contains(s, a));
    let j = sp_index_of(s, a);
    if i < j {
        assert(s[i].info.addr@ != s[j].info.addr@);
    } else if j < i {
        assert(s[j].info.addr@ != s[i].info.addr@);
    }
}

/// The live map of a peer vector.
pub open spec fn sp_map(s: Seq<Peer>) -> Map<AddrSpec, Peer> {
    Map::new(|a: AddrSpec| sp_contains(s, a), |a: AddrSpec| s[sp_index_of(s, a)])
}

/// The sticky capability hint the sync layer sets, with the time it was
/// set.
#[derive(Clone, Copy, Debug, PartialEq, Eq, Structural)]
pub struct PeersCapabilities {
    pub capabilities: Capabilities,
    pub time: i64,
}

/// One failure counter of the underperformance policy.
#[derive(Debug)]
pub struct FailureCount {
    pub addr: PeerAddr,
    pub count: u32,
}

/// The peer registry.
#[derive(Debug)]
pub struct Peers<A> {
    pub adapter: A,
    pub store: PeerStore,
    pub peers: Vec<Peer>,
    pub config: P2PConfig,
    pub boost_peers_capabilities: PeersCapabilities,
    pub excluded_peers: Vec<PeerAddr>,
    pub out_peers_failures: Vec<FailureCount>,
}

impl<A: ChainAdapter> Peers<A> {
    /// Validity: the live map and the store each hold one entry per
    /// address.
    pub open spec fn wf(self) -> bool {
        &&& sp_unique(self.peers@)
        &&& self.store.wf()
    }

    /// Address to live peer.
    pub open spec fn live_map(self) -> Map<AddrSpec, Peer> {
        sp_map(self.peers@)
    }

    /// Address to persistent record.
    pub open spec fn store_map(self) -> Map<AddrSpec, PeerData> {
        self.store.as_map()
    }

    /// The addresses that are never reported as connected.
    pub open spec fn excluded_views(self) -> Seq<AddrSpec> {
        addr_views(self.excluded_peers@)
    }

    pub fn new(store: PeerStore, adapter: A, config: P2PConfig) -> (r: Peers<A>)
        requires
            store.wf(),
        ensures
            r.wf(),
            r.live_map() == Map::<AddrSpec, Peer>::empty(),
            r.store_map() == store.as_map(),
            r.boost_peers_capabilities.capabilities.bits == 0,
            r.excluded_views() == Seq::<AddrSpec>::empty(),
            r.out_peers_failures@.len() == 0,
    {
        let r = Peers {
            adapter,
            store,
            peers: Vec::new(),
            config,
            boost_peers_capabilities: PeersCapabilities {
                capabilities: Capabilities::unknown(),
                time: 0,
            },
            excluded_peers: Vec::new(),
            out_peers_failures: Vec::new(),
        };
        proof {
            assert(r.live_map() =~= Map::<AddrSpec, Peer>::empty());
            assert(r.excluded_views() =~= Seq::<AddrSpec>::empty());
        }
        r
    }

    /// Mark these addresses as excluded: they are never reported in the
    /// connected list.
    pub fn set_excluded_peers(&mut self, peers: &Vec<PeerAddr>)
        ensures
            *final(self) == (Peers { excluded_peers: final(self).excluded_peers, ..*old(self) }),
            final(self).excluded_views() == addr_views(peers@),
    {
        self.excluded_peers = clone_addrs(peers);
        proof {
            assert(self.excluded_views() =~= addr_views(peers@));
        }
    }

    /// Record the boost hint at the given time; an unchanged hint keeps
    /// its original timestamp.
    pub fn set_boost_peers_capabilities_at(&mut self, boost: Capabilities, now: i64)
        ensures
            *final(self) == (Peers {
                boost_peers_capabilities: final(self).boost_peers_capabilities,
                ..*old(self)
            }),
            final(self).boost_peers_capabilities == if old(self).boost_peers_capabilities.capabilities != boost {
                PeersCapabilities { capabilities: boost, time: now }
            } else {
                old(self).boost_peers_capabilities
            },
    {
        if self.boost_peers_capabilities.capabilities != boost {
            self.boost_peers_capabilities = PeersCapabilities { capabilities: boost, time: now };
        }
    }

    /// Record the boost hint as of the wall clock.
    pub fn set_boost_peers_capabilities(&mut self, boost: Capabilities)
        ensures
            final(self).boost_peers_capabilities.capabilities == if old(self).boost_peers_capabilities.capabilities != boost {
                boost
            } else {
                old(self).boost_peers_capabilities.capabilities
            },
            *final(self) == (Peers {
                boost_peers_capabilities: final(self).boost_peers_capabilities,
                ..*old(self)
            }),
    {
        let now = now_utc_seconds();
        self.set_boost_peers_capabilities_at(boost, now);
    }

    /// What boosting means: a real hint, set within the window ending at
    /// `now`.
    pub open spec fn spec_is_boosting(self, now: i64) -> bool {
        self.boost_peers_capabilities.capabilities.bits != 0 && now
            - self.boost_peers_capabilities.time < BOOST_WINDOW_SECS
    }

    /// Boosting asks for fast peer acquisition, so it is limited in time:
    /// true only in the window after a real hint was set.
    pub fn is_boosting_mode_at(&self, now: i64) -> (r: bool)
        ensures
            r == self.spec_is_boosting(now),
    {
        if self.boost_peers_capabilities.capabilities.bits == 0 {
            return false;
        }
        (now as i128) - (self.boost_peers_capabilities.time as i128) < (BOOST_WINDOW_SECS as i128)
    }

    /// The boost window as of the wall clock.
    pub fn is_boosting_mode(&self) -> (r: bool)
        ensures
            self.boost_peers_capabilities.capabilities.bits == 0 ==> !r,
    {
        let now = now_utc_seconds();
        self.is_boosting_mode_at(now)
    }

    /// Whether the sync layer has a boost hint in place at all.
    pub fn is_sync_mode(&self) -> (r: bool)
        ensures
            r == (self.boost_peers_capabilities.capabilities.bits != 0),
    {
        self.boost_peers_capabilities.capabilities.bits != 0
    }

    pub fn get_boost_peers_capabilities(&self) -> (r: Capabilities)
        ensures
            r == self.boost_peers_capabilities.capabilities,
    {
        self.boost_peers_capabilities.capabilities
    }

    /// How many peers hold a connection right now; the total is capped by
    /// admission.
    pub fn get_number_connected_peers(&self) -> (r: usize)
        requires
            self.wf(),
        ensures
            r == self.live_map().dom().len(),
    {
        proof {
            crate::peers::lemma_sp_map_len(self.peers@);
        }
        self.peers.len()
    }

    /// The position of the live peer with this address, if any.
    fn live_find_index(&self, addr: &PeerAddr) -> (r: Option<usize>)
        requires
            self.wf(),
        ensures
            match r {
                Some(i) => i < self.peers@.len() && self.peers@[i as int].info.addr@ == addr@
                    && sp_contains(self.peers@, addr@) && sp_index_of(self.peers@, addr@)
                    == i as int,
                None => !sp_contains(self.peers@, addr@),
            },
    {
        let mut i: usize = 0;
        while i < self.peers.len()
            invariant
                self.wf(),
                0 <= i <= self.peers@.len(),
                forall|j: int| 0 <= j < i ==> self.peers@[j].info.addr@ != addr@,
            decreases self.peers@.len() - i,
        {
            if &self.peers[i].info.addr == addr {
                proof {
                    lemma_sp_index_unique(self.peers@, addr@, i as int);
                }
                return Some(i);
            }
            i = i + 1;
        }
        None
    }

    /// Put a peer into the live map, replacing any previous entry for its
    /// address.
    fn live_insert(&mut self, peer: Peer)
        requires
            old(self).wf(),
        ensures
            final(self).wf(),
            *final(self) == (Peers {
                peers: final(self).peers,
                ..*old(self)
            }),
            final(self).live_map() == old(self).live_map().insert(peer.info.addr@, peer),
    {
        let ghost pre = self.peers@;
        let ghost a = peer.info.addr@;
        match self.live_find_index(&peer.info.addr) {
            Some(i) => {
                self.peers.set(i, peer);
                proof {
                    assert forall|b: AddrSpec| #[trigger]
                        sp_contains(self.peers@, b) == (sp_contains(pre, b) || b == a) by {
                        if sp_contains(self.peers@, b) {
                            let k = choose|k: int|
                                0 <= k < self.peers@.len() && self.peers@[k].info.addr@ == b;
                            if k != i {
                                assert(pre[k].info.addr@ == b);
                            }
                        }
                        if sp_contains(pre, b) {
                            let k = choose|k: int| 0 <= k < pre.len() && pre[k].info.addr@ == b;
                            if k != i {
                                assert(self.peers@[k].info.addr@ == b);
                            }
                        }
                    }
                    assert forall|b: AddrSpec| sp_contains(self.peers@, b) && b != a
                        implies self.peers@[sp_index_of(self.peers@, b)] == pre[sp_index_of(
                        pre,
                        b,
                    )] by {
                        let k = sp_index_of(self.peers@, b);
                        assert(0 <= k < self.peers@.len() && self.peers@[k].info.addr@ == b);
                        assert(k != i);
                        assert(pre[k].info.addr@ == b);
                        lemma_sp_index_unique(pre, b, k);
                    }
                    assert(final(self).live_map() =~= old(self).live_map().insert(a, peer)) by {
                        lemma_sp_index_unique(self.peers@, a, i as int);
                    }
                }
            },
            None => {
                self.peers.push(peer);
                proof {
                    let n = pre.len() as int;
                    assert forall|b: AddrSpec| sp_contains(self.peers@, b) && b != a
                        implies sp_contains(pre, b) && self.peers@[sp_index_of(self.peers@, b)]
                        == pre[sp_index_of(pre, b)] by {
                        let k = sp_index_of(self.peers@, b);
                        assert(0 <= k < self.peers@.len() && self.peers@[k].info.addr@ == b);
                        assert(k < n);
                        assert(pre[k].info.addr@ == b);
                        lemma_sp_index_unique(pre, b, k);
                        lemma_sp_index_unique(self.peers@, b, k);
                    }
                    assert(sp_unique(self.peers@)) by {
                        assert(forall|j: int| 0 <= j < n ==> self.peers@[j] == pre[j]);
                    }
                    assert(final(self).live_map() =~= old(self).live_map().insert(a, peer)) by {
                        lemma_sp_index_unique(self.peers@, a, n);
                        assert forall|b: AddrSpec| #[trigger]
                            sp_contains(pre, b) implies sp_contains(self.peers@, b) by {
                            let k = sp_index_of(pre, b);
                            lemma_sp_index_unique(pre, b, k);
                            assert(self.peers@[k].info.addr@ == b);
                        }
                    }
                }
            },
        }
    }

    /// Take the live peer with this address out of the map, handing it
    /// back.
    fn live_remove(&mut self, addr: &PeerAddr) -> (r: Option<Peer>)
        requires
            old(self).wf(),
        ensures
            final(self).wf(),
            *final(self) == (Peers {
                peers: final(self).peers,
                ..*old(self)
            }),
            r is Some <==> old(self).live_map().dom().contains(addr@),
            r is Some ==> r->Some_0 == old(self).live_map()[addr@] && final(self).live_map()
                == old(self).live_map().remove(addr@),
            r is None ==> final(self).peers@ == old(self).peers@,
    {
        let ghost pre = self.peers@;
        match self.live_find_index(addr) {
            Some(i) => {
                let p = self.peers.remove(i);
                proof {
                    assert(self.peers@ =~= pre.subrange(0, i as int) + pre.subrange(
                        i + 1,
                        pre.len() as int,
                    ));
                    assert forall|b: AddrSpec| sp_contains(self.peers@, b) implies sp_contains(
                        pre,
                        b,
                    ) && b != addr@ && self.peers@[sp_index_of(self.peers@, b)] == pre[sp_index_of(
                        pre,
                        b,
                    )] by {
                        let k = sp_index_of(self.peers@, b);
                        assert(0 <= k < self.peers@.len() && self.peers@[k].info.addr@ == b);
                        let ko = if k < i as int {
                            k
                        } else {
                            k + 1
                        };
                        assert(pre[ko].info.addr@ == b);
                        lemma_sp_index_unique(pre, b, ko);
                        if b == addr@ {
                            lemma_sp_index_unique(pre, b, i as int);
                        }
                        lemma_sp_index_unique(self.peers@, b, k);
                    }
                    assert forall|b: AddrSpec| sp_contains(pre, b) && b != addr@
                        implies sp_contains(self.peers@, b) by {
                        let k = sp_index_of(pre, b);
                        lemma_sp_index_unique(pre, b, k);
                        if k < i as int {
                            assert(self.peers@[k].info.addr@ == b);
                        } else {
                            assert(k > i as int);
                            assert(self.peers@[k - 1].info.addr@ == b);
                        }
                    }
                    assert(final(self).live_map() =~= old(self).live_map().remove(addr@));
                    lemma_sp_index_unique(pre, addr@, i as int);
                }
                Some(p)
            },
            None => None,
        }
    }

    /// Admit a freshly handshaken peer: insert it into the live map, then
    /// persist a healthy record for it, dated `now`.
    pub fn add_connected_at(&mut self, peer: Peer, now: i64) -> (r: Result<(), Error>)
        requires
            old(self).wf(),
        ensures
            final(self).wf(),
            r is Ok,
            final(self).live_map() == old(self).live_map().insert(peer.info.addr@, peer),
            final(self).store_map() == old(self).store_map().insert(
                peer.info.addr@,
                connected_record(peer, now),
            ),
            *final(self) == (Peers {
                peers: final(self).peers,
                store: final(self).store,
                ..*old(self)
            }),
    {
        let peer_data = PeerData {
            addr: peer.info.addr.clone(),
            capabilities: peer.info.capabilities,
            user_agent: peer.info.user_agent.clone(),
            flags: State::Healthy,
            last_banned: 0,
            ban_reason: ReasonForBan::NoReason,
            last_connected: now,
        };
        self.live_insert(peer);
        // The record is persisted after the map insert, never under it:
        // the store is its own critical section.
        self.store.save_peer(&peer_data);
        Ok(())
    }

    /// Admit a peer, dating its record by the wall clock.
    pub fn add_connected(&mut self, peer: Peer) -> (r: Result<(), Error>)
        requires
            old(self).wf(),
        ensures
            final(self).wf(),
            r is Ok,
            final(self).live_map() == old(self).live_map().insert(peer.info.addr@, peer),
            final(self).store_map().dom() == old(self).store_map().dom().insert(peer.info.addr@),
            final(self).store_map()[peer.info.addr@].flags == State::Healthy,
            final(self).store_map()[peer.info.addr@].addr@ == peer.info.addr@,
            forall|b: AddrSpec|
                b != peer.info.addr@ && old(self).store_map().dom().contains(b) ==> final(self).store_map()[b] == old(self).store_map()[b],
            *final(self) == (Peers {
                peers: final(self).peers,
                store: final(self).store,
                ..*old(self)
            }),
    {
        let now = now_utc_seconds();
        let r = self.add_connected_at(peer, now);
        proof {
            assert(final(self).store_map().dom() =~= old(self).store_map().dom().insert(
                peer.info.addr@,
            ));
        }
        r
    }

    /// Persist a banned record for this address, dated `now`, without
    /// touching the live map; used for failed handshakes.
    pub fn add_banned_at(&mut self, addr: PeerAddr, ban_reason: ReasonForBan, now: i64) -> (r:
        Result<(), Error>)
        requires
            old(self).wf(),
        ensures
            final(self).wf(),
            r is Ok,
            final(self).store_map().dom() == old(self).store_map().dom().insert(addr@),
            final(self).store_map()[addr@].addr@ == addr@,
            final(self).store_map()[addr@].flags == State::Banned,
            final(self).store_map()[addr@].ban_reason == ban_reason,
            final(self).store_map()[addr@].last_banned == now,
            final(self).store_map()[addr@].last_connected == now,
            final(self).store_map()[addr@].capabilities.bits == 0,
            final(self).store_map()[addr@].user_agent@ == Seq::<char>::empty(),
            forall|b: AddrSpec|
                b != addr@ && old(self).store_map().dom().contains(b) ==> final(self).store_map()[b]
                    == old(self).store_map()[b],
            *final(self) == (Peers { store: final(self).store, ..*old(self) }),
    {
        let ghost a = addr@;
        let peer_data = PeerData {
            addr,
            capabilities: Capabilities::unknown(),
            user_agent: new_string(),
            flags: State::Banned,
            last_banned: now,
            ban_reason,
            last_connected: now,
        };
        self.store.save_peer(&peer_data);
        proof {
            assert(final(self).store_map().dom() =~= old(self).store_map().dom().insert(a));
        }
        Ok(())
    }

    /// Persist a banned record dated by the wall clock.
    pub fn add_banned(&mut self, addr: PeerAddr, ban_reason: ReasonForBan) -> (r: Result<
        (),
        Error,
    >)
        requires
            old(self).wf(),
        ensures
            final(self).wf(),
            r is Ok,
            final(self).store_map().dom() == old(self).store_map().dom().insert(addr@),
            final(self).store_map()[addr@].flags == State::Banned,
            final(self).store_map()[addr@].ban_reason == ban_reason,
            forall|b: AddrSpec|
                b != addr@ && old(self).store_map().dom().contains(b) ==> final(self).store_map()[b]
                    == old(self).store_map()[b],
            *final(self) == (Peers { store: final(self).store, ..*old(self) }),
    {
        let now = now_utc_seconds();
        let ghost a = addr@;
        let r = self.add_banned_at(addr, ban_reason, now);
        proof {
            assert(final(self).store_map().dom() =~= old(self).store_map().dom().insert(a));
        }
        r
    }

    /// Whether we are already connected to this address.
    pub fn is_known(&self, addr: &PeerAddr) -> (r: Result<bool, Error>)
        requires
            self.wf(),
        ensures
            r is Ok && r->Ok_0 == self.live_map().dom().contains(addr@),
    {
        match self.live_find_index(addr) {
            Some(_) => Ok(true),
            None => Ok(false),
        }
    }

    /// Whether the store holds a banned record for this address.
    pub fn is_banned(&self, addr: &PeerAddr) -> (r: bool)
        requires
            self.wf(),
        ensures
            r == (self.store_map().dom().contains(addr@) && self.store_map()[addr@].flags
                == State::Banned),
    {
        match self.store.get_peer(addr) {
            Ok(d) => match d.flags {
                State::Banned => true,
                _ => false,
            },
            Err(_) => false,
        }
    }

    /// The persistent record for an address.
    pub fn get_peer(&self, addr: &PeerAddr) -> (r: Result<PeerData, Error>)
        requires
            self.wf(),
        ensures
            match r {
                Ok(d) => self.store_map().dom().contains(addr@) && d == self.store_map()[addr@],
                Err(e) => !self.store_map().dom().contains(addr@) && e is PeerNotFound,
            },
    {
        self.store.get_peer(addr)
    }

    /// Remove the persistent record for an address.
    pub fn delete_peer(&mut self, addr: &PeerAddr) -> (r: Result<(), Error>)
        requires
            old(self).wf(),
        ensures
            final(self).wf(),
            r is Ok <==> old(self).store_map().dom().contains(addr@),
            r is Ok ==> final(self).store_map() == old(self).store_map().remove(addr@),
            r is Err ==> *final(self) == *old(self),
            *final(self) == (Peers { store: final(self).store, ..*old(self) }),
    {
        self.store.delete_peer(addr)
    }

    /// Whether the store has ever seen this address.
    pub fn exists_peer(&self, addr: &PeerAddr) -> (r: Result<bool, Error>)
        requires
            self.wf(),
        ensures
            r is Ok && r->Ok_0 == self.store_map().dom().contains(addr@),
    {
        Ok(self.store.exists_peer(addr))
    }

    /// Persist one record.
    pub fn save_peer(&mut self, p: &PeerData) -> (r: Result<(), Error>)
        requires
            old(self).wf(),
        ensures
            final(self).wf(),
            r is Ok,
            final(self).store_map() == old(self).store_map().insert(p.addr@, *p),
            *final(self) == (Peers { store: final(self).store, ..*old(self) }),
    {
        self.store.save_peer(p);
        Ok(())
    }

    /// Persist a batch of records, later entries winning.
    pub fn save_peers(&mut self, list: Vec<PeerData>) -> (r: Result<(), Error>)
        requires
            old(self).wf(),
        ensures
            final(self).wf(),
            r is Ok,
            final(self).store_map() == crate::store::store_upserts(
                old(self).store_map(),
                list@.map_values(|d: PeerData| d),
            ),
            *final(self) == (Peers { store: final(self).store, ..*old(self) }),
    {
        self.store.save_peers(list);
        Ok(())
    }

    /// Set the persistent state of an address.
    pub fn update_state(&mut self, addr: &PeerAddr, new_state: State) -> (r: Result<(), Error>)
        requires
            old(self).wf(),
        ensures
            final(self).wf(),
            r is Ok <==> old(self).store_map().dom().contains(addr@),
            r is Ok ==> final(self).store_map() == old(self).store_map().insert(
                addr@,
                PeerData { flags: new_state, ..old(self).store_map()[addr@] },
            ),
            r is Err ==> *final(self) == *old(self),
            *final(self) == (Peers { store: final(self).store, ..*old(self) }),
    {
        self.store.update_state(addr, new_state)
    }

    /// The records in a given state that advertise every bit of `cap`.
    pub fn find_peers(&self, state: State, cap: Capabilities) -> (r: Vec<PeerData>)
        requires
            self.wf(),
        ensures
            r@ == self.store.records@.filter(
                |d: PeerData| d.flags == state && d.capabilities.spec_contains(cap),
            ),
    {
        self.store.find_peers(state, cap)
    }

    /// Every record the store knows, in store order.
    pub fn peer_data_iter(&self) -> (r: Vec<PeerData>)
        requires
            self.wf(),
        ensures
            r@ == self.store.records@,
    {
        self.store.all_peers()
    }

    /// Every record advertising `capabilities`; an empty capability set
    /// matches all.
    pub fn all_peer_data(&self, capabilities: Capabilities) -> (r: Vec<PeerData>)
        requires
            self.wf(),
        ensures
            r@ == self.store.records@.filter(
                |d: PeerData| d.capabilities.spec_contains(capabilities),
            ),
    {
        let all = self.store.all_peers();
        let mut r: Vec<PeerData> = Vec::new();
        let mut i: usize = 0;
        proof {
            assert(all@.take(0int).filter(
                |d: PeerData| d.capabilities.spec_contains(capabilities),
            ) =~= Seq::<PeerData>::empty());
        }
        while i < all.len()
            invariant
                0 <= i <= all@.len(),
                all@ == self.store.records@,
                r@ == all@.take(i as int).filter(
                    |d: PeerData| d.capabilities.spec_contains(capabilities),
                ),
            decreases all@.len() - i,
        {
            let d = &all[i];
            proof {
                assert(all@.take(i + 1int).drop_last() =~= all@.take(i as int));
                reveal_with_fuel(Seq::filter, 2);
            }
            if d.capabilities.contains(capabilities) {
                r.push(d.clone());
            }
            i = i + 1;
        }
        proof {
            assert(all@.take(all@.len() as int) =~= all@);
        }
        r
    }

    /// Unban an address: a banned record turns healthy; a missing record
    /// is `PeerNotFound`, a record in any other state `PeerNotBanned`.
    pub fn unban_peer(&mut self, addr: &PeerAddr) -> (r: Result<(), Error>)
        requires
            old(self).wf(),
        ensures
            final(self).wf(),
            *final(self) == (Peers { store: final(self).store, ..*old(self) }),
            r is Ok <==> (old(self).store_map().dom().contains(addr@) && old(self).store_map()[
                addr@
            ].flags == State::Banned),
            r is Ok ==> final(self).store_map() == old(self).store_map().insert(
                addr@,
                PeerData { flags: State::Healthy, ..old(self).store_map()[addr@] },
            ),
            r is Err ==> *final(self) == *old(self) && (if old(self).store_map().dom().contains(
                addr@,
            ) {
                r->Err_0 is PeerNotBanned
            } else {
                r->Err_0 is PeerNotFound
            }),
    {
        match self.store.get_peer(addr) {
            Ok(_) => {
                if self.is_banned(addr) {
                    self.update_state(addr, State::Healthy)
                } else {
                    Err(Error::PeerNotBanned)
                }
            },
            Err(_) => Err(Error::PeerNotFound),
        }
    }

    /// Whether a live peer is visible as connected: present, connected and
    /// not excluded.
    pub open spec fn spec_visible_connected(self, a: AddrSpec) -> bool {
        &&& self.live_map().dom().contains(a)
        &&& self.live_map()[a].connected
        &&& !addrs_contain(self.excluded_views(), a)
    }

    /// The connected peer at this address, as a snapshot; excluded
    /// addresses are never reported.
    pub fn get_connected_peer(&self, addr: &PeerAddr) -> (r: Option<PeerLite>)
        requires
            self.wf(),
        ensures
            r is Some <==> self.spec_visible_connected(addr@),
            r is Some ==> r->Some_0 == lite_of(self.live_map()[addr@]),
    {
        match self.live_find_index(addr) {
            Some(i) => {
                let p = &self.peers[i];
                if p.is_connected() && !crate::types::addr_list_contains(
                    &self.excluded_peers,
                    addr,
                ) {
                    Some(PeerLite { info: p.info.clone(), connected: p.connected, banned: p.banned })
                } else {
                    None
                }
            },
            None => None,
        }
    }

    /// Ban an address at `now`: its record turns banned; a connected peer
    /// under it is told the reason best-effort, marked, stopped and
    /// removed from the live map. An address without a record leaves
    /// everything unchanged; one without a visible connected peer yields
    /// `PeerNotFound` with the record still banned.
    pub fn ban_peer_at(&mut self, addr: &PeerAddr, ban_reason: ReasonForBan, now: i64) -> (r:
        Result<(), Error>)
        requires
            old(self).wf(),
        ensures
            final(self).wf(),
            !old(self).store_map().dom().contains(addr@) ==> r is Err && *final(self) == *old(self),
            old(self).store_map().dom().contains(addr@) ==> final(self).store_map() == old(self).store_map().insert(
                addr@,
                PeerData { flags: State::Banned, ..old(self).store_map()[addr@] },
            ),
            old(self).store_map().dom().contains(addr@) && old(self).spec_visible_connected(addr@)
                ==> r is Ok && final(self).live_map() == old(self).live_map().remove(addr@),
            old(self).store_map().dom().contains(addr@) && !old(self).spec_visible_connected(addr@)
                ==> r is Err && r->Err_0 is PeerNotFound && final(self).peers@ == old(self).peers@,
            *final(self) == (Peers {
                peers: final(self).peers,
                store: final(self).store,
                ..*old(self)
            }),
    {
        let _ = now;
        match self.update_state(addr, State::Banned) {
            Ok(_) => {},
            Err(e) => {
                return Err(e);
            },
        }
        let visible = match self.get_connected_peer(addr) {
            Some(_) => true,
            None => false,
        };
        if visible {
            match self.live_remove(addr) {
                Some(mut peer) => {
                    // Telling the peer why is best effort: a dead queue
                    // must not keep the ban from landing.
                    let _ = peer.send_ban_reason(ban_reason);
                    peer.set_banned();
                    peer.stop();
                    Ok(())
                },
                None => Err(Error::PeerNotFound),
            }
        } else {
            Err(Error::PeerNotFound)
        }
    }

    /// Ban an address, dating the record by the wall clock.
    pub fn ban_peer(&mut self, addr: &PeerAddr, ban_reason: ReasonForBan) -> (r: Result<
        (),
        Error,
    >)
        requires
            old(self).wf(),
        ensures
            final(self).wf(),
            !old(self).store_map().dom().contains(addr@) ==> r is Err && *final(self) == *old(self),
            old(self).store_map().dom().contains(addr@) ==> final(self).store_map() == old(self).store_map().insert(
                addr@,
                PeerData { flags: State::Banned, ..old(self).store_map()[addr@] },
            ),
            old(self).store_map().dom().contains(addr@) && old(self).spec_visible_connected(addr@)
                ==> r is Ok && final(self).live_map() == old(self).live_map().remove(addr@),
            old(self).store_map().dom().contains(addr@) && !old(self).spec_visible_connected(addr@)
                ==> r is Err && r->Err_0 is PeerNotFound && final(self).peers@ == old(self).peers@,
            *final(self) == (Peers {
                peers: final(self).peers,
                store: final(self).store,
                ..*old(self)
            }),
    {
        let now = now_utc_seconds();
        self.ban_peer_at(addr, ban_reason, now)
    }

    /// Fan a payload out to every visible connected peer it applies to,
    /// each at most once. A peer whose send fails is stopped and removed;
    /// the count of successful sends is returned.
    fn broadcast_msg(&mut self, m: &BroadcastMsg) -> (count: u32)
        requires
            old(self).wf(),
            old(self).peers@.len() <= u32::MAX,
        ensures
            final(self).wf(),
            forall|i: int|
                0 <= i < old(self).peers@.len() ==> bm_processed(
                    old(self).peers@[i],
                    *m,
                    old(self).excluded_views(),
                    final(self).peers@,
                ),
            forall|a: AddrSpec|
                sp_contains(final(self).peers@, a) ==> sp_contains(old(self).peers@, a),
            count == bm_count_from(old(self).peers@, 0, *m, old(self).excluded_views()),
            *final(self) == (Peers { peers: final(self).peers, ..*old(self) }),
    {
        let ghost s0 = self.peers@;
        let ghost excl = self.excluded_views();
        let mut pending: Vec<Peer> = Vec::new();
        core::mem::swap(&mut pending, &mut self.peers);
        let mut kept: Vec<Peer> = Vec::new();
        let mut count: u32 = 0;
        proof {
            assert(bm_count_from(s0, s0.len() as int, *m, excl) == 0);
        }
        while pending.len() > 0
            invariant
                self.excluded_views() == excl,
                sp_unique(s0),
                pending@ == s0.take(pending@.len() as int),
                pending@.len() <= s0.len() <= u32::MAX,
                sp_unique(kept@),
                forall|a: AddrSpec| sp_contains(kept@, a) ==> #[trigger] sp_contains(s0, a)
                    && sp_index_of(s0, a) >= pending@.len(),
                forall|i: int|
                    pending@.len() <= i < s0.len() ==> bm_processed(s0[i], *m, excl, kept@),
                count == bm_count_from(s0, pending@.len() as int, *m, excl),
            decreases pending@.len(),
        {
            let ghost k = pending@.len() as int - 1;
            let popped = pending.pop();
            let mut p = match popped {
                Some(p) => p,
                None => {
                    proof {
                        assert(false);
                    }
                    unreached()
                },
            };
            proof {
                assert(p == s0[k]);
                assert(pending@ =~= s0.take(k));
                lemma_sp_index_unique(s0, p.info.addr@, k);
                assert(bm_count_from(s0, k, *m, excl) == (if bm_counted(s0[k], *m, excl) {
                    1nat
                } else {
                    0nat
                }) + bm_count_from(s0, k + 1, *m, excl));
                lemma_bm_count_bound(s0, k + 1, *m, excl);
            }
            let ghost kept0 = kept@;
            let send_it = p.is_connected() && !crate::types::addr_list_contains(
                &self.excluded_peers,
                &p.info.addr,
            ) && broadcast_applies(m, &p);
            if send_it {
                let sent = match m {
                    BroadcastMsg::CompactBlock { block } => {
                        match p.send_compact_block(*block) {
                            Ok(_) => true,
                            Err(_) => false,
                        }
                    },
                    BroadcastMsg::Header { header } => {
                        match p.send_header(*header) {
                            Ok(_) => true,
                            Err(_) => false,
                        }
                    },
                    BroadcastMsg::Transaction { tx, height } => {
                        match p.send_transaction(tx.clone()) {
                            Ok(_) => true,
                            Err(_) => false,
                        }
                    },
                    BroadcastMsg::Ping { total_difficulty, height } => {
                        match p.send_ping(*total_difficulty, *height) {
                            Ok(_) => true,
                            Err(_) => false,
                        }
                    },
                };
                if sent {
                    count = count + 1;
                    kept.push(p);
                } else {
                    // The queue is disconnected: the worker is gone. Stop
                    // the peer and drop it from the map.
                    p.stop();
                }
            } else {
                kept.push(p);
            }
            proof {
                assert forall|i: int| k <= i < s0.len() implies bm_processed(
                    s0[i],
                    *m,
                    excl,
                    kept@,
                ) by {
                    if i == k {
                        if !bm_removes(s0[k], *m, excl) {
                            assert(kept@.last().info.addr@ == s0[k].info.addr@);
                            lemma_sp_index_unique(kept@, s0[k].info.addr@, kept@.len() - 1);
                        } else {
                            if sp_contains(kept@, s0[k].info.addr@) {
                                let j = choose|j: int|
                                    0 <= j < kept@.len() && kept@[j].info.addr@ == s0[k].info.addr@;
                                assert(kept@[j] == kept0[j]);
                                assert(sp_contains(kept0, s0[k].info.addr@));
                                assert(sp_index_of(s0, s0[k].info.addr@) >= k + 1);
                            }
                        }
                    } else {
                        assert(bm_processed(s0[i], *m, excl, kept0));
                        if bm_removes(s0[i], *m, excl) {
                            if sp_contains(kept@, s0[i].info.addr@) {
                                let j = choose|j: int|
                                    0 <= j < kept@.len() && kept@[j].info.addr@ == s0[i].info.addr@;
                                if j < kept0.len() {
                                    assert(sp_contains(kept0, s0[i].info.addr@));
                                } else {
                                    assert(kept@[j] == kept@.last());
                                    lemma_sp_index_unique(s0, s0[i].info.addr@, i);
                                }
                            }
                        } else {
                            assert(sp_contains(kept0, s0[i].info.addr@));
                            let j = sp_index_of(kept0, s0[i].info.addr@);
                            assert(kept0[j].info.addr@ == s0[i].info.addr@);
                            assert(kept@[j] == kept0[j]);
                            lemma_sp_index_unique(kept@, s0[i].info.addr@, j);
                            lemma_sp_index_unique(kept0, s0[i].info.addr@, j);
                        }
                    }
                }
                assert(sp_unique(kept@)) by {
                    if kept@.len() > kept0.len() {
                        assert forall|x: int, y: int|
                            0 <= x < y < kept@.len() implies kept@[x].info.addr@
                            != kept@[y].info.addr@ by {
                            if y == kept@.len() - 1 {
                                let a = kept@[x].info.addr@;
                                assert(kept@[x] == kept0[x]);
                                assert(sp_contains(kept0, a));
                                assert(sp_contains(s0, a));
                                let xi = sp_index_of(s0, a);
                                assert(xi >= k + 1);
                                assert(0 <= xi < s0.len() && s0[xi].info.addr@ == a);
                                assert(s0[k].info.addr@ != s0[xi].info.addr@);
                                assert(kept@[y].info.addr@ == s0[k].info.addr@);
                            } else {
                                assert(kept@[x] == kept0[x] && kept@[y] == kept0[y]);
                            }
                        }
                    }
                }
                assert forall|a: AddrSpec| sp_contains(kept@, a) implies #[trigger] sp_contains(
                    s0,
                    a,
                ) && sp_index_of(s0, a) >= pending@.len() by {
                    let j = choose|j: int| 0 <= j < kept@.len() && kept@[j].info.addr@ == a;
                    if j < kept0.len() {
                        assert(kept@[j] == kept0[j]);
                        assert(sp_contains(kept0, a));
                    } else {
                        assert(kept@[j].info.addr@ == s0[k].info.addr@);
                        lemma_sp_index_unique(s0, a, k);
                    }
                }
            }
        }
        proof {
            assert(pending@ =~= Seq::<Peer>::empty());
        }
        self.peers = kept;
        proof {
            assert forall|a: AddrSpec|
                sp_contains(final(self).peers@, a) implies sp_contains(s0, a) by {}
        }
        count
    }

    /// Broadcast a compact block to all our connected peers; used when a
    /// newly mined block goes out. Returns how many peers it was sent to.
    pub fn broadcast_compact_block(&mut self, b: &crate::msg::CompactBlock) -> (count: u32)
        requires
            old(self).wf(),
            old(self).peers@.len() <= u32::MAX,
        ensures
            final(self).wf(),
            forall|i: int|
                0 <= i < old(self).peers@.len() ==> bm_processed(
                    old(self).peers@[i],
                    BroadcastMsg::CompactBlock { block: *b },
                    old(self).excluded_views(),
                    final(self).peers@,
                ),
            forall|a: AddrSpec|
                sp_contains(final(self).peers@, a) ==> sp_contains(old(self).peers@, a),
            count == bm_count_from(
                old(self).peers@,
                0,
                BroadcastMsg::CompactBlock { block: *b },
                old(self).excluded_views(),
            ),
            *final(self) == (Peers { peers: final(self).peers, ..*old(self) }),
    {
        self.broadcast_msg(&BroadcastMsg::CompactBlock { block: *b })
    }

    /// Broadcast a block header to all our connected peers. Returns how
    /// many peers it was sent to.
    pub fn broadcast_header(&mut self, bh: &crate::msg::BlockHeader) -> (count: u32)
        requires
            old(self).wf(),
            old(self).peers@.len() <= u32::MAX,
        ensures
            final(self).wf(),
            forall|i: int|
                0 <= i < old(self).peers@.len() ==> bm_processed(
                    old(self).peers@[i],
                    BroadcastMsg::Header { header: *bh },
                    old(self).excluded_views(),
                    final(self).peers@,
                ),
            forall|a: AddrSpec|
                sp_contains(final(self).peers@, a) ==> sp_contains(old(self).peers@, a),
            count == bm_count_from(
                old(self).peers@,
                0,
                BroadcastMsg::Header { header: *bh },
                old(self).excluded_views(),
            ),
            *final(self) == (Peers { peers: final(self).peers, ..*old(self) }),
    {
        self.broadcast_msg(&BroadcastMsg::Header { header: *bh })
    }

    /// Broadcast a transaction to the connected peers that accept its base
    /// fee at this height. Returns how many peers it was sent to.
    pub fn broadcast_transaction(&mut self, tx: crate::msg::Transaction, height: u64) -> (count:
        u32)
        requires
            old(self).wf(),
            old(self).peers@.len() <= u32::MAX,
        ensures
            final(self).wf(),
            forall|i: int|
                0 <= i < old(self).peers@.len() ==> bm_processed(
                    old(self).peers@[i],
                    (BroadcastMsg::Transaction { tx, height }),
                    old(self).excluded_views(),
                    final(self).peers@,
                ),
            forall|a: AddrSpec|
                sp_contains(final(self).peers@, a) ==> sp_contains(old(self).peers@, a),
            count == bm_count_from(
                old(self).peers@,
                0,
                (BroadcastMsg::Transaction { tx, height }),
                old(self).excluded_views(),
            ),
            *final(self) == (Peers { peers: final(self).peers, ..*old(self) }),
    {
        self.broadcast_msg(&BroadcastMsg::Transaction { tx, height })
    }

    /// Ping every visible connected peer with our tip, removing those
    /// whose worker is gone; a liveness sweep.
    pub fn check_all(&mut self, total_difficulty: u64, height: u64)
        requires
            old(self).wf(),
            old(self).peers@.len() <= u32::MAX,
        ensures
            final(self).wf(),
            forall|i: int|
                0 <= i < old(self).peers@.len() ==> bm_processed(
                    old(self).peers@[i],
                    BroadcastMsg::Ping { total_difficulty, height },
                    old(self).excluded_views(),
                    final(self).peers@,
                ),
            forall|a: AddrSpec|
                sp_contains(final(self).peers@, a) ==> sp_contains(old(self).peers@, a),
            *final(self) == (Peers { peers: final(self).peers, ..*old(self) }),
    {
        let _ = self.broadcast_msg(&BroadcastMsg::Ping { total_difficulty, height });
    }

    /// One prune cycle over the live map, with every policy input passed
    /// in. In order it removes: flagged peers (banned, disconnected,
    /// abusive — the abusive also turn banned in the store — and stuck
    /// ones below our difficulty, which turn defunct); outbound peers
    /// lacking the boost capability beyond half the outbound cap;
    /// outbound peers that underperformed three cycles running; up to two
    /// excess outbound peers, lowest-ranked first; and all excess inbound
    /// peers. Preferred and excluded peers are exempt from the capacity
    /// evictions, and a cycle with nothing to do changes nothing.
    pub fn clean_peers_at(
        &mut self,
        max_inbound_count: usize,
        max_outbound_count: usize,
        boost_capability: Capabilities,
        config: &P2PConfig,
        my_difficulty: u64,
        my_height: u64,
        my_base_fee: u64,
        now: i64,
        now_ms: u64,
    )
        requires
            old(self).wf(),
        ensures
            final(self).wf(),
            *final(self) == (Peers {
                peers: final(self).peers,
                store: final(self).store,
                out_peers_failures: final(self).out_peers_failures,
                ..*old(self)
            }),
            // survivors are old peers, untouched
            forall|a: AddrSpec|
                sp_contains(final(self).peers@, a) ==> sp_contains(old(self).peers@, a) && final(self).live_map()[a] == old(self).live_map()[a],
            // every flagged visible peer is gone
            forall|i: int|
                0 <= i < old(self).peers@.len() && !addrs_contain(
                    old(self).excluded_views(),
                    old(self).peers@[i].info.addr@,
                ) && prune_flagged(
                    old(self).peers@[i],
                    config.abuse_threshold_bytes_per_min,
                    my_difficulty,
                    now,
                    now_ms,
                ) ==> !sp_contains(final(self).peers@, old(self).peers@[i].info.addr@),
            // abusive peers turn banned in the store
            forall|i: int|
                0 <= i < old(self).peers@.len() && !addrs_contain(
                    old(self).excluded_views(),
                    old(self).peers@[i].info.addr@,
                ) && prune_abusive(
                    old(self).peers@[i],
                    config.abuse_threshold_bytes_per_min,
                    now_ms,
                ) && old(self).store_map().dom().contains(old(self).peers@[i].info.addr@) ==> final(self).store_map()[old(self).peers@[i].info.addr@].flags == State::Banned,
            // stuck peers below us turn defunct in the store
            forall|i: int|
                0 <= i < old(self).peers@.len() && !addrs_contain(
                    old(self).excluded_views(),
                    old(self).peers@[i].info.addr@,
                ) && prune_stuck(
                    old(self).peers@[i],
                    config.abuse_threshold_bytes_per_min,
                    my_difficulty,
                    now,
                    now_ms,
                ) && old(self).store_map().dom().contains(old(self).peers@[i].info.addr@) ==> final(self).store_map()[old(self).peers@[i].info.addr@].flags == State::Defunct,
            // the store keeps its records; a cycle only moves flags
            final(self).store_map().dom() == old(self).store_map().dom(),
            forall|a: AddrSpec| #[trigger]
                old(self).store_map().dom().contains(a) ==> final(self).store_map()[a] == old(self).store_map()[a] || final(self).store_map()[a] == (PeerData {
                    flags: State::Banned,
                    ..old(self).store_map()[a]
                }) || final(self).store_map()[a] == (PeerData {
                    flags: State::Defunct,
                    ..old(self).store_map()[a]
                }),
            // without underperformers every failure counter resets
            (forall|i: int|
                0 <= i < old(self).peers@.len() && !addrs_contain(
                    old(self).excluded_views(),
                    old(self).peers@[i].info.addr@,
                ) && old(self).peers@[i].connected && old(self).peers@[i].info.is_outbound()
                    ==> !underperforming(old(self).peers@[i], my_difficulty, my_height)) ==> final(self).out_peers_failures@.len() == 0,
            // excluded peers are out of every cycle's reach
            forall|i: int|
                0 <= i < old(self).peers@.len() && addrs_contain(
                    old(self).excluded_views(),
                    old(self).peers@[i].info.addr@,
                ) ==> sp_contains(final(self).peers@, old(self).peers@[i].info.addr@),
            // preferred peers are exempt from every capacity eviction: only
            // a flag can remove one
            forall|i: int|
                0 <= i < old(self).peers@.len() && !addrs_contain(
                    old(self).excluded_views(),
                    old(self).peers@[i].info.addr@,
                ) && addrs_contain(
                    addr_views(config.peers_preferred@),
                    old(self).peers@[i].info.addr@,
                ) && !prune_flagged(
                    old(self).peers@[i],
                    config.abuse_threshold_bytes_per_min,
                    my_difficulty,
                    now,
                    now_ms,
                ) ==> sp_contains(final(self).peers@, old(self).peers@[i].info.addr@),
            // the underperformance ledger: a watched peer behind our tip
            // has its counter raised by one and leaves at three
            forall|i: int|
                0 <= i < old(self).peers@.len() && underperf_candidate(
                    old(self).peers@[i],
                    old(self).excluded_views(),
                    addr_views(config.peers_preferred@),
                ) && underperforming(old(self).peers@[i], my_difficulty, my_height) ==> {
                    &&& failure_count_of(
                        final(self).out_peers_failures@,
                        old(self).peers@[i].info.addr@,
                    ) == bumped(
                        failure_count_of(
                            old(self).out_peers_failures@,
                            old(self).peers@[i].info.addr@,
                        ),
                    )
                    &&& (bumped(
                        failure_count_of(
                            old(self).out_peers_failures@,
                            old(self).peers@[i].info.addr@,
                        ),
                    ) >= 3 ==> !sp_contains(final(self).peers@, old(self).peers@[i].info.addr@))
                },
            // counters of peers that stopped matching reset: every surviving
            // entry belongs to a watched peer behind our tip
            forall|k: int| #![trigger final(self).out_peers_failures@[k]]
                0 <= k < final(self).out_peers_failures@.len() ==> exists|i: int|
                    0 <= i < old(self).peers@.len() && #[trigger] old(self).peers@[i].info.addr@
                        == final(self).out_peers_failures@[k].addr@ && underperf_candidate(
                        old(self).peers@[i],
                        old(self).excluded_views(),
                        addr_views(config.peers_preferred@),
                    ) && underperforming(old(self).peers@[i], my_difficulty, my_height),
            // the inbound trim is complete: with no preferred peer among
            // the visible inbound, a cycle never leaves the inbound count
            // above its cap
            (forall|i: int|
                0 <= i < old(self).peers@.len() && old(self).peers@[i].connected && !addrs_contain(
                    old(self).excluded_views(),
                    old(self).peers@[i].info.addr@,
                ) && old(self).peers@[i].info.is_inbound() ==> !addrs_contain(
                    addr_views(config.peers_preferred@),
                    old(self).peers@[i].info.addr@,
                )) ==> inbound_connected_from(final(self).peers@, 0, old(self).excluded_views())
                <= max_inbound_count,
            // shedding is gradual: with nothing flagged, no boost hint, no
            // underperformer and inbound within its cap, a cycle removes at
            // most two peers (the excess-outbound trim's allowance)
            ((forall|i: int|
                0 <= i < old(self).peers@.len() && !addrs_contain(
                    old(self).excluded_views(),
                    old(self).peers@[i].info.addr@,
                ) ==> !prune_flagged(
                    old(self).peers@[i],
                    config.abuse_threshold_bytes_per_min,
                    my_difficulty,
                    now,
                    now_ms,
                )) && boost_capability.bits == 0 && (forall|i: int|
                0 <= i < old(self).peers@.len() && !addrs_contain(
                    old(self).excluded_views(),
                    old(self).peers@[i].info.addr@,
                ) && old(self).peers@[i].connected && old(self).peers@[i].info.is_outbound()
                    ==> !underperforming(old(self).peers@[i], my_difficulty, my_height))
                && inbound_connected_from(old(self).peers@, 0, old(self).excluded_views())
                <= max_inbound_count) ==> final(self).peers@.len() + 2 >= old(self).peers@.len(),
            // a cycle with nothing to do changes nothing
            clean_noop_input(
                old(self).peers@,
                old(self).excluded_views(),
                max_inbound_count,
                max_outbound_count,
                boost_capability,
                config.abuse_threshold_bytes_per_min,
                my_difficulty,
                my_height,
                now,
                now_ms,
            ) ==> final(self).peers@ == old(self).peers@ && final(self).store_map() == old(self).store_map() && final(self).out_peers_failures@.len() == 0,
    {
        let ghost s0 = self.peers@;
        let ghost excl = self.excluded_views();
        let ghost st0 = self.store.as_map();
        let ghost prefs = addr_views(config.peers_preferred@);
        let ghost fail0 = self.out_peers_failures@;
        let ghost hyp_inb = forall|i: int|
            0 <= i < s0.len() && s0[i].connected && !addrs_contain(excl, s0[i].info.addr@)
                && s0[i].info.is_inbound() ==> !addrs_contain(prefs, #[trigger] s0[i].info.addr@);
        let threshold = config.abuse_threshold_bytes_per_min;
        let ghost hyp = clean_noop_input(
            s0,
            excl,
            max_inbound_count,
            max_outbound_count,
            boost_capability,
            threshold,
            my_difficulty,
            my_height,
            now,
            now_ms,
        );

        let mut rm: Vec<PeerAddr> = Vec::new();

        // Flag pass: banned, disconnected, abusive (promoted to a
        // persistent ban), stuck below our tip (persistently defunct).
        let mut i: usize = 0;
        while i < self.peers.len()
            invariant
                self.wf(),
                self.peers@ == s0,
                self.excluded_views() == excl,
                *self == (Peers { store: self.store, ..*old(self) }),
                st0 == old(self).store_map(),
                0 <= i <= s0.len(),
                self.store.as_map().dom() == st0.dom(),
                forall|a: AddrSpec| #[trigger]
                    st0.dom().contains(a) ==> self.store.as_map()[a] == st0[a]
                        || self.store.as_map()[a] == (PeerData {
                        flags: State::Banned,
                        ..st0[a]
                    }) || self.store.as_map()[a] == (PeerData {
                        flags: State::Defunct,
                        ..st0[a]
                    }),
                forall|j: int|
                    0 <= j < i && !addrs_contain(excl, s0[j].info.addr@) && prune_abusive(
                        s0[j],
                        threshold,
                        now_ms,
                    ) && st0.dom().contains(s0[j].info.addr@) ==> self.store.as_map()[s0[j].info.addr@].flags
                        == State::Banned,
                forall|j: int|
                    0 <= j < i && !addrs_contain(excl, s0[j].info.addr@) && prune_stuck(
                        s0[j],
                        threshold,
                        my_difficulty,
                        now,
                        now_ms,
                    ) && st0.dom().contains(s0[j].info.addr@) ==> self.store.as_map()[s0[j].info.addr@].flags
                        == State::Defunct,
                forall|j: int|
                    0 <= j < i && !addrs_contain(excl, s0[j].info.addr@) && prune_flagged(
                        s0[j],
                        threshold,
                        my_difficulty,
                        now,
                        now_ms,
                    ) ==> addrs_contain(addr_views(rm@), s0[j].info.addr@),
                hyp == clean_noop_input(
                    s0,
                    excl,
                    max_inbound_count,
                    max_outbound_count,
                    boost_capability,
                    threshold,
                    my_difficulty,
                    my_height,
                    now,
                    now_ms,
                ),
                hyp ==> rm@.len() == 0 && self.store.as_map() == st0,
                prefs == addr_views(config.peers_preferred@),
                forall|k: int|
                    0 <= k < addr_views(rm@).len() ==> removable(
                        #[trigger] addr_views(rm@)[k],
                        s0,
                        excl,
                        prefs,
                        threshold,
                        my_difficulty,
                        now,
                        now_ms,
                    ),
                (forall|j: int|
                    0 <= j < s0.len() && !addrs_contain(excl, s0[j].info.addr@) ==> !prune_flagged(
                        s0[j],
                        threshold,
                        my_difficulty,
                        now,
                        now_ms,
                    )) ==> rm@.len() == 0,
            decreases s0.len() - i,
        {
            let verdict: Verdict = {
                let p = &self.peers[i];
                if crate::types::addr_list_contains(&self.excluded_peers, &p.info.addr) {
                    Verdict::Keep
                } else if p.is_banned() {
                    Verdict::Remove
                } else if !p.is_connected() {
                    Verdict::Remove
                } else if p.is_abusive(now_ms, threshold) {
                    Verdict::MarkBanned
                } else {
                    let (stuck, diff) = p.is_stuck(now);
                    if stuck && diff < my_difficulty {
                        Verdict::MarkDefunct
                    } else {
                        Verdict::Keep
                    }
                }
            };
            let addr = self.peers[i].info.addr.clone();
            let ghost rmv0 = addr_views(rm@);
            match verdict {
                Verdict::Keep => {},
                Verdict::Remove => {
                    rm_push(&mut rm, addr);
                },
                Verdict::MarkBanned => {
                    let _ = self.store.update_state(&addr, State::Banned);
                    rm_push(&mut rm, addr);
                },
                Verdict::MarkDefunct => {
                    let _ = self.store.update_state(&addr, State::Defunct);
                    rm_push(&mut rm, addr);
                },
            }
            proof {
                if hyp {
                    assert(!addrs_contain(excl, s0[i as int].info.addr@) ==> !prune_flagged(
                        s0[i as int],
                        threshold,
                        my_difficulty,
                        now,
                        now_ms,
                    ));
                }
                if verdict != Verdict::Keep {
                    assert(prune_flagged(s0[i as int], threshold, my_difficulty, now, now_ms));
                    assert(flagged_at(s0, s0[i as int].info.addr@, threshold, my_difficulty, now, now_ms));
                }
                assert forall|k: int|
                    0 <= k < addr_views(rm@).len() implies removable(
                    #[trigger] addr_views(rm@)[k],
                    s0,
                    excl,
                    prefs,
                    threshold,
                    my_difficulty,
                    now,
                    now_ms,
                ) by {
                    if k < rmv0.len() {
                        assert(addr_views(rm@)[k] == rmv0[k]);
                    } else {
                        assert(addr_views(rm@)[k] == s0[i as int].info.addr@);
                    }
                }
            }
            i = i + 1;
        }

        let ghost store_a = self.store;

        // Count the visible connected peers by direction, once.
        let mut out_count: usize = 0;
        let mut in_count: usize = 0;
        let mut j: usize = 0;
        while j < self.peers.len()
            invariant
                self.wf(),
                self.peers@ == s0,
                self.excluded_views() == excl,
                *self == (Peers {
                    peers: self.peers,
                    store: self.store,
                    out_peers_failures: self.out_peers_failures,
                    ..*old(self)
                }),
                self.store == store_a,
                0 <= j <= s0.len(),
                out_count <= j,
                in_count <= j,
                out_count + outbound_connected_from(s0, j as int, excl) == outbound_connected_from(
                    s0,
                    0,
                    excl,
                ),
                in_count + inbound_connected_from(s0, j as int, excl) == inbound_connected_from(
                    s0,
                    0,
                    excl,
                ),
            decreases s0.len() - j,
        {
            let p = &self.peers[j];
            let visible = p.is_connected() && !crate::types::addr_list_contains(
                &self.excluded_peers,
                &p.info.addr,
            );
            proof {
                assert(outbound_connected_from(s0, j as int, excl) == (if s0[j as int].connected
                    && !addrs_contain(excl, s0[j as int].info.addr@)
                    && s0[j as int].info.is_outbound() {
                    1nat
                } else {
                    0nat
                }) + outbound_connected_from(s0, j + 1int, excl));
                assert(inbound_connected_from(s0, j as int, excl) == (if s0[j as int].connected
                    && !addrs_contain(excl, s0[j as int].info.addr@)
                    && s0[j as int].info.is_inbound() {
                    1nat
                } else {
                    0nat
                }) + inbound_connected_from(s0, j + 1int, excl));
            }
            if visible {
                match p.info.direction {
                    crate::types::Direction::Outbound => {
                        out_count = out_count + 1;
                    },
                    crate::types::Direction::Inbound => {
                        in_count = in_count + 1;
                    },
                }
            }
            j = j + 1;
        }

        // Boost trim: while a boost capability is wanted, at most half the
        // outbound peers may lack it; surplus ones without it are shed in
        // whatever order they stand, skipping preferred peers.
        if boost_capability.bits != 0 {
            let excess = usat_sub(out_count, max_outbound_count / 2);
            let ghost rm_b = rm@;
            let mut taken: usize = 0;
            let mut j: usize = 0;
            while j < self.peers.len() && taken < excess
                invariant
                    self.wf(),
                    self.peers@ == s0,
                    self.excluded_views() == excl,
                *self == (Peers {
                    peers: self.peers,
                    store: self.store,
                    out_peers_failures: self.out_peers_failures,
                    ..*old(self)
                }),
                self.store == store_a,
                    0 <= j <= s0.len(),
                    taken <= excess,
                    forall|a: AddrSpec|
                        addrs_contain(addr_views(rm_b), a) ==> addrs_contain(addr_views(rm@), a),
                    excess == 0 ==> rm@ == rm_b,
                    prefs == addr_views(config.peers_preferred@),
                    forall|k: int|
                        0 <= k < addr_views(rm@).len() ==> removable(
                            #[trigger] addr_views(rm@)[k],
                            s0,
                            excl,
                            prefs,
                            threshold,
                            my_difficulty,
                            now,
                            now_ms,
                        ),
                decreases s0.len() - j,
            {
                let p = &self.peers[j];
                if p.is_connected() && !crate::types::addr_list_contains(
                    &self.excluded_peers,
                    &p.info.addr,
                ) && matches!(p.info.direction, crate::types::Direction::Outbound)
                    && !crate::types::addr_list_contains(&config.peers_preferred, &p.info.addr)
                    && !p.info.capabilities.contains(boost_capability) {
                    let addr = p.info.addr.clone();
                    let ghost rmv0 = addr_views(rm@);
                    rm_push(&mut rm, addr);
                    proof {
                        assert forall|k: int|
                            0 <= k < addr_views(rm@).len() implies removable(
                            #[trigger] addr_views(rm@)[k],
                            s0,
                            excl,
                            prefs,
                            threshold,
                            my_difficulty,
                            now,
                            now_ms,
                        ) by {
                            if k < rmv0.len() {
                                assert(addr_views(rm@)[k] == rmv0[k]);
                            } else {
                                assert(addr_views(rm@)[k] == s0[j as int].info.addr@);
                            }
                        }
                    }
                    taken = taken + 1;
                }
                j = j + 1;
            }
        }

        // Underperformance pass: an outbound peer two or more blocks
        // behind with lower difficulty accumulates a counter; three
        // observations running remove it. Counters of peers that match no
        // longer reset.
        let rm_sz0 = rm.len();
        let ghost rm_c = rm@;
        let mut next_failures: Vec<FailureCount> = Vec::new();
        let height_floor = if my_height >= 2 {
            my_height - 2
        } else {
            0
        };
        let mut j: usize = 0;
        while j < self.peers.len()
            invariant
                self.wf(),
                self.peers@ == s0,
                self.excluded_views() == excl,
                *self == (Peers {
                    peers: self.peers,
                    store: self.store,
                    out_peers_failures: self.out_peers_failures,
                    ..*old(self)
                }),
                self.store == store_a,
                0 <= j <= s0.len(),
                forall|a: AddrSpec|
                    addrs_contain(addr_views(rm_c), a) ==> addrs_contain(addr_views(rm@), a),
                rm@.len() >= rm_sz0,
                height_floor == (if my_height >= 2 {
                    my_height - 2
                } else {
                    0
                }),
                (forall|i2: int|
                    0 <= i2 < s0.len() && !addrs_contain(excl, s0[i2].info.addr@)
                        && s0[i2].connected && s0[i2].info.is_outbound() ==> !underperforming(
                        s0[i2],
                        my_difficulty,
                        my_height,
                    )) ==> next_failures@.len() == 0 && rm@ == rm_c,
                prefs == addr_views(config.peers_preferred@),
                fail0 == old(self).out_peers_failures@,
                self.out_peers_failures@ == fail0,
                forall|k: int|
                    0 <= k < addr_views(rm@).len() ==> removable(
                        #[trigger] addr_views(rm@)[k],
                        s0,
                        excl,
                        prefs,
                        threshold,
                        my_difficulty,
                        now,
                        now_ms,
                    ),
                forall|j2: int|
                    0 <= j2 < j && underperf_candidate(s0[j2], excl, prefs) && underperforming(
                        s0[j2],
                        my_difficulty,
                        my_height,
                    ) ==> failure_count_of(next_failures@, #[trigger] s0[j2].info.addr@) == bumped(
                        failure_count_of(fail0, s0[j2].info.addr@),
                    ) && (bumped(failure_count_of(fail0, s0[j2].info.addr@)) >= 3
                        ==> addrs_contain(addr_views(rm@), s0[j2].info.addr@)),
                forall|k: int| #![trigger next_failures@[k]]
                    0 <= k < next_failures@.len() ==> exists|i2: int|
                        0 <= i2 < j && #[trigger] s0[i2].info.addr@ == next_failures@[k].addr@
                            && underperf_candidate(s0[i2], excl, prefs) && underperforming(
                            s0[i2],
                            my_difficulty,
                            my_height,
                        ),
            decreases s0.len() - j,
        {
            let p = &self.peers[j];
            if p.is_connected() && !crate::types::addr_list_contains(
                &self.excluded_peers,
                &p.info.addr,
            ) && matches!(p.info.direction, crate::types::Direction::Outbound)
                && !crate::types::addr_list_contains(&config.peers_preferred, &p.info.addr) {
                if p.info.height < height_floor && p.info.total_difficulty < my_difficulty {
                    proof {
                        assert(!addrs_contain(excl, s0[j as int].info.addr@));
                        assert(s0[j as int].connected && s0[j as int].info.is_outbound());
                        assert(!addrs_contain(prefs, s0[j as int].info.addr@));
                        assert(underperf_candidate(s0[j as int], excl, prefs));
                        assert(underperforming(s0[j as int], my_difficulty, my_height));
                    }
                    let c0 = failures_lookup(&self.out_peers_failures, &p.info.addr);
                    let c = if c0 == u32::MAX {
                        c0
                    } else {
                        c0 + 1
                    };
                    proof {
                        assert(c == bumped(failure_count_of(fail0, s0[j as int].info.addr@)));
                    }
                    let addr = p.info.addr.clone();
                    let ghost rmv0 = addr_views(rm@);
                    if c >= 3 {
                        let addr2 = addr.clone();
                        rm_push(&mut rm, addr2);
                    }
                    proof {
                        assert forall|k: int|
                            0 <= k < addr_views(rm@).len() implies removable(
                            #[trigger] addr_views(rm@)[k],
                            s0,
                            excl,
                            prefs,
                            threshold,
                            my_difficulty,
                            now,
                            now_ms,
                        ) by {
                            if k < rmv0.len() {
                                assert(addr_views(rm@)[k] == rmv0[k]);
                            } else {
                                assert(addr_views(rm@)[k] == s0[j as int].info.addr@);
                            }
                        }
                    }
                    let ghost nf0 = next_failures@;
                    next_failures.push(FailureCount { addr, count: c });
                    proof {
                        let aj = s0[j as int].info.addr@;
                        assert(next_failures@.last().addr@ == aj);
                        assert forall|k: int|
                            0 <= k < nf0.len() implies nf0[k].addr@ != aj by {
                            assert(nf0[k] == next_failures@[k]);
                            let i2 = choose|i2: int|
                                0 <= i2 < j && #[trigger] s0[i2].info.addr@ == nf0[k].addr@
                                    && underperf_candidate(s0[i2], excl, prefs) && underperforming(
                                    s0[i2],
                                    my_difficulty,
                                    my_height,
                                );
                            assert(s0[i2].info.addr@ != s0[j as int].info.addr@);
                        }
                        lemma_failure_count_append(nf0, next_failures@, aj, c);
                        assert forall|j2: int|
                            0 <= j2 < j + 1 && underperf_candidate(s0[j2], excl, prefs)
                                && underperforming(s0[j2], my_difficulty, my_height) implies
                            failure_count_of(next_failures@, #[trigger] s0[j2].info.addr@)
                                == bumped(failure_count_of(fail0, s0[j2].info.addr@)) && (bumped(
                                failure_count_of(fail0, s0[j2].info.addr@),
                            ) >= 3 ==> addrs_contain(addr_views(rm@), s0[j2].info.addr@)) by {
                            if j2 < j {
                                assert(s0[j2].info.addr@ != aj);
                                assert(failure_count_of(next_failures@, s0[j2].info.addr@)
                                    == failure_count_of(nf0, s0[j2].info.addr@));
                            } else {
                                assert(failure_count_of(next_failures@, aj) == c);
                                if c >= 3 {
                                    assert(addrs_contain(addr_views(rm@), aj));
                                }
                            }
                        }
                        assert forall|k: int| #![trigger next_failures@[k]]
                            0 <= k < next_failures@.len() implies exists|i2: int|
                            0 <= i2 < j + 1 && #[trigger] s0[i2].info.addr@
                                == next_failures@[k].addr@ && underperf_candidate(
                                s0[i2],
                                excl,
                                prefs,
                            ) && underperforming(s0[i2], my_difficulty, my_height) by {
                            if k < nf0.len() {
                                assert(next_failures@[k] == nf0[k]);
                            } else {
                                assert(next_failures@[k].addr@ == s0[j as int].info.addr@);
                            }
                        }
                    }
                }
            }
            j = j + 1;
        }
        self.out_peers_failures = next_failures;
        let ghost failures_a = self.out_peers_failures;

        // Excess outbound: shed at most two per cycle, lowest-ranked
        // first; a peer with a lower base fee than ours ranks at half its
        // difficulty, so it is a preferred victim. Gradual shedding is
        // deliberate.
        let removed_by_underperf = usat_sub(rm.len(), rm_sz0);
        let excess0 = usat_sub(out_count, max_outbound_count);
        let excess1 = if excess0 > 2 {
            2
        } else {
            excess0
        };
        let excess_out = usat_sub(excess1, removed_by_underperf);
        let ghost rm_e = rm@;
        if excess_out > 0 {
            let mut cand: Vec<ScoredAddr> = Vec::new();
            let mut j: usize = 0;
            while j < self.peers.len()
                invariant
                    self.wf(),
                    self.peers@ == s0,
                    self.excluded_views() == excl,
                    *self == (Peers {
                        peers: self.peers,
                        store: self.store,
                        out_peers_failures: self.out_peers_failures,
                        ..*old(self)
                    }),
                    self.store == store_a,
                    self.out_peers_failures == failures_a,
                    0 <= j <= s0.len(),
                    prefs == addr_views(config.peers_preferred@),
                    forall|k: int|
                        0 <= k < cand@.len() ==> !addrs_contain(
                            excl,
                            #[trigger] cand@[k].addr@,
                        ) && !addrs_contain(prefs, cand@[k].addr@),
                decreases s0.len() - j,
            {
                let p = &self.peers[j];
                if p.is_connected() && !crate::types::addr_list_contains(
                    &self.excluded_peers,
                    &p.info.addr,
                ) && matches!(p.info.direction, crate::types::Direction::Outbound)
                    && !crate::types::addr_list_contains(&config.peers_preferred, &p.info.addr) {
                    let score = if p.info.tx_base_fee < my_base_fee {
                        p.info.total_difficulty / 2
                    } else {
                        p.info.total_difficulty
                    };
                    let ghost cv0 = cand@;
                    cand.push(ScoredAddr { addr: p.info.addr.clone(), score });
                    proof {
                        assert forall|k: int|
                            0 <= k < cand@.len() implies !addrs_contain(
                            excl,
                            #[trigger] cand@[k].addr@,
                        ) && !addrs_contain(prefs, cand@[k].addr@) by {
                            if k < cv0.len() {
                                assert(cand@[k] == cv0[k]);
                            } else {
                                assert(cand@[k].addr@ == s0[j as int].info.addr@);
                            }
                        }
                    }
                }
                j = j + 1;
            }
            let mut t: usize = 0;
            while t < excess_out && cand.len() > 0
                invariant
                    self.wf(),
                    self.peers@ == s0,
                    self.excluded_views() == excl,
                    *self == (Peers {
                        peers: self.peers,
                        store: self.store,
                        out_peers_failures: self.out_peers_failures,
                        ..*old(self)
                    }),
                    self.store == store_a,
                    self.out_peers_failures == failures_a,
                    forall|a: AddrSpec|
                        addrs_contain(addr_views(rm_e), a) ==> addrs_contain(addr_views(rm@), a),
                    prefs == addr_views(config.peers_preferred@),
                    t <= excess_out,
                    rm@.len() <= rm_e.len() + t,
                    forall|k: int|
                        0 <= k < cand@.len() ==> !addrs_contain(
                            excl,
                            #[trigger] cand@[k].addr@,
                        ) && !addrs_contain(prefs, cand@[k].addr@),
                    forall|k: int|
                        0 <= k < addr_views(rm@).len() ==> removable(
                            #[trigger] addr_views(rm@)[k],
                            s0,
                            excl,
                            prefs,
                            threshold,
                            my_difficulty,
                            now,
                            now_ms,
                        ),
                decreases excess_out - t,
            {
                let mut best: usize = 0;
                let mut b: usize = 1;
                while b < cand.len()
                    invariant
                        best < cand@.len(),
                        b <= cand@.len(),
                    decreases cand@.len() - b,
                {
                    if cand[b].score < cand[best].score {
                        best = b;
                    }
                    b = b + 1;
                }
                let ghost cv0 = cand@;
                let ghost rmv0 = addr_views(rm@);
                let victim = cand.remove(best);
                proof {
                    assert(victim == cv0[best as int]);
                    assert(cand@ =~= cv0.subrange(0, best as int) + cv0.subrange(
                        best + 1,
                        cv0.len() as int,
                    ));
                    assert forall|k: int|
                        0 <= k < cand@.len() implies !addrs_contain(
                        excl,
                        #[trigger] cand@[k].addr@,
                    ) && !addrs_contain(prefs, cand@[k].addr@) by {
                        if k < best {
                            assert(cand@[k] == cv0[k]);
                        } else {
                            assert(cand@[k] == cv0[k + 1]);
                        }
                    }
                }
                rm_push(&mut rm, victim.addr);
                proof {
                    assert forall|k: int|
                        0 <= k < addr_views(rm@).len() implies removable(
                        #[trigger] addr_views(rm@)[k],
                        s0,
                        excl,
                        prefs,
                        threshold,
                        my_difficulty,
                        now,
                        now_ms,
                    ) by {
                        if k < rmv0.len() {
                            assert(addr_views(rm@)[k] == rmv0[k]);
                        } else {
                            assert(addr_views(rm@)[k] == cv0[best as int].addr@);
                        }
                    }
                }
                t = t + 1;
            }
        }

        // Excess inbound: every inbound peer beyond the cap goes,
        // non-preferred first in standing order.
        let excess_in = usat_sub(in_count, max_inbound_count);
        let ghost rm_f = rm@;
        let ghost mut picked: Set<AddrSpec> = Set::empty();
        if excess_in > 0 {
            let mut taken: usize = 0;
            let mut j: usize = 0;
            while j < self.peers.len() && taken < excess_in
                invariant
                    self.wf(),
                    self.peers@ == s0,
                    self.excluded_views() == excl,
                    *self == (Peers {
                        peers: self.peers,
                        store: self.store,
                        out_peers_failures: self.out_peers_failures,
                        ..*old(self)
                    }),
                    self.store == store_a,
                    self.out_peers_failures == failures_a,
                    0 <= j <= s0.len(),
                    forall|a: AddrSpec|
                        addrs_contain(addr_views(rm_f), a) ==> addrs_contain(addr_views(rm@), a),
                    prefs == addr_views(config.peers_preferred@),
                    forall|k: int|
                        0 <= k < addr_views(rm@).len() ==> removable(
                            #[trigger] addr_views(rm@)[k],
                            s0,
                            excl,
                            prefs,
                            threshold,
                            my_difficulty,
                            now,
                            now_ms,
                        ),
                    hyp_inb == (forall|i2: int|
                        0 <= i2 < s0.len() && s0[i2].connected && !addrs_contain(
                            excl,
                            s0[i2].info.addr@,
                        ) && s0[i2].info.is_inbound() ==> !addrs_contain(
                            prefs,
                            #[trigger] s0[i2].info.addr@,
                        )),
                    picked.finite(),
                    picked.len() == taken,
                    taken <= excess_in,
                    forall|a: AddrSpec| #[trigger]
                        picked.contains(a) ==> vis_in_addrs(s0, excl).contains(a)
                            && addrs_contain(addr_views(rm@), a),
                    forall|a: AddrSpec|
                        picked.contains(a) ==> exists|j2: int|
                            0 <= j2 < j && #[trigger] s0[j2].info.addr@ == a,
                    hyp_inb ==> taken + inbound_connected_from(s0, j as int, excl) >= excess_in,
            decreases s0.len() - j,
            {
                let p = &self.peers[j];
                proof {
                    assert(inbound_connected_from(s0, j as int, excl) == (if s0[j as int].connected
                        && !addrs_contain(excl, s0[j as int].info.addr@)
                        && s0[j as int].info.is_inbound() {
                        1nat
                    } else {
                        0nat
                    }) + inbound_connected_from(s0, j + 1int, excl));
                }
                if p.is_connected() && !crate::types::addr_list_contains(
                    &self.excluded_peers,
                    &p.info.addr,
                ) && matches!(p.info.direction, crate::types::Direction::Inbound)
                    && !crate::types::addr_list_contains(&config.peers_preferred, &p.info.addr) {
                    let addr = p.info.addr.clone();
                    let ghost rmv0 = addr_views(rm@);
                    rm_push(&mut rm, addr);
                    proof {
                        assert forall|k: int|
                            0 <= k < addr_views(rm@).len() implies removable(
                            #[trigger] addr_views(rm@)[k],
                            s0,
                            excl,
                            prefs,
                            threshold,
                            my_difficulty,
                            now,
                            now_ms,
                        ) by {
                            if k < rmv0.len() {
                                assert(addr_views(rm@)[k] == rmv0[k]);
                            } else {
                                assert(addr_views(rm@)[k] == s0[j as int].info.addr@);
                            }
                        }
                        let aj = s0[j as int].info.addr@;
                        assert(!picked.contains(aj)) by {
                            if picked.contains(aj) {
                                let j2 = choose|j2: int|
                                    0 <= j2 < j && #[trigger] s0[j2].info.addr@ == aj;
                                assert(s0[j2].info.addr@ != s0[j as int].info.addr@);
                            }
                        }
                        assert(vis_in_addrs(s0, excl).contains(aj));
                        picked = picked.insert(aj);
                        assert forall|a: AddrSpec| #[trigger]
                            picked.contains(a) implies vis_in_addrs(s0, excl).contains(a)
                            && addrs_contain(addr_views(rm@), a) by {
                            if a != aj {
                                assert(addrs_contain(rmv0, a));
                            }
                        }
                    }
                    taken = taken + 1;
                }
                j = j + 1;
            }
            proof {
                if hyp_inb {
                    assert(picked.len() == excess_in);
                }
            }
        }

        // Removal pass: stop every listed peer and take it out of the map.
        let ghost s_mid = self.peers@;
        let ghost rm_all = rm@;
        let mut k: usize = 0;
        while k < rm.len()
            invariant
                self.wf(),
                rm@ == rm_all,
                self.excluded_views() == excl,
                *self == (Peers {
                    peers: self.peers,
                    store: self.store,
                    out_peers_failures: self.out_peers_failures,
                    ..*old(self)
                }),
                self.store == store_a,
                self.out_peers_failures == failures_a,
                0 <= k <= rm@.len(),
                s_mid == s0,
                rm_all.len() == 0 ==> self.peers@ == s_mid,
                forall|a: AddrSpec|
                    sp_contains(self.peers@, a) ==> #[trigger] sp_contains(s0, a) && sp_map(
                        self.peers@,
                    )[a] == sp_map(s0)[a],
                forall|j2: int| 0 <= j2 < k ==> !sp_contains(self.peers@, rm@[j2]@),
                prefs == addr_views(config.peers_preferred@),
                fail0 == old(self).out_peers_failures@,
                forall|k2: int|
                    0 <= k2 < addr_views(rm_all).len() ==> removable(
                        #[trigger] addr_views(rm_all)[k2],
                        s0,
                        excl,
                        prefs,
                        threshold,
                        my_difficulty,
                        now,
                        now_ms,
                    ),
                forall|a: AddrSpec|
                    sp_contains(s_mid, a) && !addrs_contain(addr_views(rm_all), a)
                        ==> sp_contains(self.peers@, a),
                self.peers@.len() + k >= s_mid.len(),
            decreases rm@.len() - k,
        {
            let addr = rm[k].clone();
            let ghost pre_peers = self.peers@;
            match self.live_remove(&addr) {
                Some(mut p) => {
                    p.stop();
                },
                None => {},
            }
            proof {
                assert forall|a: AddrSpec| sp_contains(self.peers@, a) implies #[trigger]
                    sp_contains(s0, a) && sp_map(self.peers@)[a] == sp_map(s0)[a] by {
                    assert(sp_map(pre_peers).dom().contains(a) ==> sp_contains(pre_peers, a));
                    if sp_contains(self.peers@, a) {
                        assert(sp_map(self.peers@).dom().contains(a));
                        if sp_contains(pre_peers, addr@) {
                            assert(sp_map(self.peers@) == sp_map(pre_peers).remove(addr@));
                            assert(sp_map(self.peers@)[a] == sp_map(pre_peers)[a]);
                        } else {
                            assert(self.peers@ == pre_peers);
                        }
                        assert(sp_contains(pre_peers, a));
                    }
                }
                assert forall|j2: int| 0 <= j2 < k + 1 implies !sp_contains(
                    self.peers@,
                    rm@[j2]@,
                ) by {
                    if j2 < k {
                        assert(!sp_contains(pre_peers, rm@[j2]@));
                        if sp_contains(self.peers@, rm@[j2]@) {
                            assert(sp_map(self.peers@).dom().contains(rm@[j2]@));
                        }
                    } else {
                        if sp_contains(self.peers@, addr@) {
                            assert(sp_map(self.peers@).dom().contains(addr@));
                        }
                    }
                }
                assert forall|a: AddrSpec|
                    sp_contains(s_mid, a) && !addrs_contain(addr_views(rm_all), a)
                        implies sp_contains(self.peers@, a) by {
                    assert(sp_contains(pre_peers, a));
                    assert(addr_views(rm_all)[k as int] == addr@);
                    assert(a != addr@);
                    if sp_contains(pre_peers, addr@) {
                        assert(sp_map(self.peers@) == sp_map(pre_peers).remove(addr@));
                        assert(sp_map(pre_peers).dom().contains(a));
                        assert(sp_map(self.peers@).dom().contains(a));
                    } else {
                        assert(self.peers@ == pre_peers);
                    }
                }
                assert(self.peers@.len() + k + 1 >= s_mid.len()) by {
                    lemma_sp_map_len(pre_peers);
                    lemma_sp_map_len(self.peers@);
                    if sp_contains(pre_peers, addr@) {
                        assert(sp_map(self.peers@) == sp_map(pre_peers).remove(addr@));
                        assert(sp_map(self.peers@).dom() =~= sp_map(pre_peers).dom().remove(
                            addr@,
                        ));
                        assert(sp_map(pre_peers).dom().contains(addr@));
                    } else {
                        assert(self.peers@ == pre_peers);
                    }
                }
            }
            k = k + 1;
        }
        proof {
            if hyp {
                assert(rm_all.len() == 0);
                assert(self.peers@ =~= s0);
            }
            assert forall|i2: int|
                0 <= i2 < s0.len() && !addrs_contain(excl, s0[i2].info.addr@) && prune_flagged(
                    s0[i2],
                    threshold,
                    my_difficulty,
                    now,
                    now_ms,
                ) implies !sp_contains(final(self).peers@, s0[i2].info.addr@) by {
                let a = s0[i2].info.addr@;
                assert(addrs_contain(addr_views(rm_all), a));
                let k2 = choose|k2: int|
                    0 <= k2 < addr_views(rm_all).len() && addr_views(rm_all)[k2] == a;
                assert(rm_all[k2]@ == a);
                assert(!sp_contains(final(self).peers@, rm_all[k2]@));
            }
            // excluded peers survive: nothing removable is excluded
            assert forall|i2: int|
                0 <= i2 < s0.len() && addrs_contain(excl, s0[i2].info.addr@) implies sp_contains(
                final(self).peers@,
                s0[i2].info.addr@,
            ) by {
                let a = s0[i2].info.addr@;
                assert(sp_contains(s_mid, a));
                if !sp_contains(final(self).peers@, a) {
                    assert(addrs_contain(addr_views(rm_all), a));
                    let k2 = choose|k2: int|
                        0 <= k2 < addr_views(rm_all).len() && #[trigger] addr_views(rm_all)[k2]
                            == a;
                    assert(removable(
                        addr_views(rm_all)[k2],
                        s0,
                        excl,
                        prefs,
                        threshold,
                        my_difficulty,
                        now,
                        now_ms,
                    ));
                }
            }
            // preferred peers survive unless flagged
            assert forall|i2: int|
                0 <= i2 < s0.len() && !addrs_contain(excl, s0[i2].info.addr@) && addrs_contain(
                    prefs,
                    s0[i2].info.addr@,
                ) && !prune_flagged(s0[i2], threshold, my_difficulty, now, now_ms)
                implies sp_contains(final(self).peers@, s0[i2].info.addr@) by {
                let a = s0[i2].info.addr@;
                assert(sp_contains(s_mid, a));
                if !sp_contains(final(self).peers@, a) {
                    assert(addrs_contain(addr_views(rm_all), a));
                    let k2 = choose|k2: int|
                        0 <= k2 < addr_views(rm_all).len() && #[trigger] addr_views(rm_all)[k2]
                            == a;
                    assert(removable(
                        addr_views(rm_all)[k2],
                        s0,
                        excl,
                        prefs,
                        threshold,
                        my_difficulty,
                        now,
                        now_ms,
                    ));
                    assert(flagged_at(s0, a, threshold, my_difficulty, now, now_ms));
                    let i3 = choose|i3: int|
                        0 <= i3 < s0.len() && #[trigger] s0[i3].info.addr@ == a && prune_flagged(
                            s0[i3],
                            threshold,
                            my_difficulty,
                            now,
                            now_ms,
                        );
                    lemma_sp_index_unique(s0, a, i3);
                    lemma_sp_index_unique(s0, a, i2);
                }
            }
            // the underperformance ledger
            assert forall|i2: int|
                0 <= i2 < s0.len() && underperf_candidate(s0[i2], excl, prefs) && underperforming(
                    s0[i2],
                    my_difficulty,
                    my_height,
                ) implies {
                &&& failure_count_of(final(self).out_peers_failures@, s0[i2].info.addr@) == bumped(
                    failure_count_of(fail0, s0[i2].info.addr@),
                )
                &&& (bumped(failure_count_of(fail0, s0[i2].info.addr@)) >= 3 ==> !sp_contains(
                    final(self).peers@,
                    s0[i2].info.addr@,
                ))
            } by {
                let a = s0[i2].info.addr@;
                assert(failure_count_of(failures_a@, a) == bumped(failure_count_of(fail0, a)));
                if bumped(failure_count_of(fail0, a)) >= 3 {
                    assert(addrs_contain(addr_views(rm_e), a));
                    assert(addrs_contain(addr_views(rm_f), a));
                    assert(addrs_contain(addr_views(rm_all), a));
                    let k2 = choose|k2: int|
                        0 <= k2 < addr_views(rm_all).len() && #[trigger] addr_views(rm_all)[k2]
                            == a;
                    assert(rm_all[k2]@ == a);
                    assert(!sp_contains(final(self).peers@, rm_all[k2]@));
                }
            }
            // inbound completeness: the trim's picks are distinct visible
            // inbound peers, all removed, so the survivors fit the cap
            if hyp_inb {
                lemma_in_count_is_card(s0, 0, excl);
                assert(s0.skip(0) =~= s0);
                lemma_in_count_is_card(final(self).peers@, 0, excl);
                assert(final(self).peers@.skip(0) =~= final(self).peers@);
                assert(vis_in_addrs(final(self).peers@, excl).subset_of(
                    vis_in_addrs(s0, excl),
                )) by {
                    assert forall|a: AddrSpec| #[trigger]
                        vis_in_addrs(final(self).peers@, excl).contains(a) implies vis_in_addrs(
                        s0,
                        excl,
                    ).contains(a) by {
                        let i3 = choose|i3: int|
                            0 <= i3 < final(self).peers@.len() && #[trigger] final(self).peers@[i3].info.addr@
                                == a && final(self).peers@[i3].connected && !addrs_contain(excl, a)
                                && final(self).peers@[i3].info.is_inbound();
                        lemma_sp_index_unique(final(self).peers@, a, i3);
                        assert(sp_contains(s0, a) && sp_map(final(self).peers@)[a] == sp_map(
                            s0,
                        )[a]);
                        let i4 = sp_index_of(s0, a);
                        lemma_sp_index_unique(s0, a, i4);
                        assert(s0[i4] == final(self).peers@[i3]);
                    }
                }
                assert(vis_in_addrs(final(self).peers@, excl).disjoint(picked)) by {
                    assert forall|a: AddrSpec| #[trigger]
                        picked.contains(a) implies !vis_in_addrs(
                        final(self).peers@,
                        excl,
                    ).contains(a) by {
                        assert(addrs_contain(addr_views(rm_all), a));
                        let k3 = choose|k3: int|
                            0 <= k3 < addr_views(rm_all).len() && #[trigger] addr_views(rm_all)[k3]
                                == a;
                        assert(rm_all[k3]@ == a);
                        assert(!sp_contains(final(self).peers@, rm_all[k3]@));
                        if vis_in_addrs(final(self).peers@, excl).contains(a) {
                            let i3 = choose|i3: int|
                                0 <= i3 < final(self).peers@.len() && #[trigger] final(self).peers@[i3].info.addr@
                                    == a && final(self).peers@[i3].connected && !addrs_contain(
                                    excl,
                                    a,
                                ) && final(self).peers@[i3].info.is_inbound();
                            lemma_sp_index_unique(final(self).peers@, a, i3);
                        }
                    }
                }
                lemma_disjoint_subsets_len(
                    vis_in_addrs(final(self).peers@, excl),
                    picked,
                    vis_in_addrs(s0, excl),
                );
                assert(inbound_connected_from(final(self).peers@, 0, excl) + picked.len()
                    <= inbound_connected_from(s0, 0, excl));
            }
            // gradual shedding under an otherwise clean cycle
            if (forall|i2: int|
                0 <= i2 < s0.len() && !addrs_contain(excl, s0[i2].info.addr@) ==> !prune_flagged(
                    s0[i2],
                    threshold,
                    my_difficulty,
                    now,
                    now_ms,
                )) && boost_capability.bits == 0 && (forall|i2: int|
                0 <= i2 < s0.len() && !addrs_contain(excl, s0[i2].info.addr@) && s0[i2].connected
                    && s0[i2].info.is_outbound() ==> !underperforming(
                    s0[i2],
                    my_difficulty,
                    my_height,
                )) && inbound_connected_from(s0, 0, excl) <= max_inbound_count {
                assert(rm_all.len() <= 2);
            }
        }
    }

    /// One prune cycle, reading our tip from the adapter and the time from
    /// the wall clock. A failing adapter reads as a zero tip, under which
    /// neither the stuck nor the underperformance policy can fire.
    pub fn clean_peers(
        &mut self,
        max_inbound_count: usize,
        max_outbound_count: usize,
        boost_capability: Capabilities,
        config: &P2PConfig,
        my_base_fee: u64,
    )
        requires
            old(self).wf(),
        ensures
            final(self).wf(),
            *final(self) == (Peers {
                peers: final(self).peers,
                store: final(self).store,
                out_peers_failures: final(self).out_peers_failures,
                ..*old(self)
            }),
            forall|a: AddrSpec|
                sp_contains(final(self).peers@, a) ==> sp_contains(old(self).peers@, a) && final(self).live_map()[a] == old(self).live_map()[a],
            // banned or no-longer-connected peers never survive a cycle
            forall|i: int|
                0 <= i < old(self).peers@.len() && !addrs_contain(
                    old(self).excluded_views(),
                    old(self).peers@[i].info.addr@,
                ) && (old(self).peers@[i].banned || !old(self).peers@[i].connected)
                    ==> !sp_contains(final(self).peers@, old(self).peers@[i].info.addr@),
            // excluded peers are out of the cycle's reach
            forall|i: int|
                0 <= i < old(self).peers@.len() && addrs_contain(
                    old(self).excluded_views(),
                    old(self).peers@[i].info.addr@,
                ) ==> sp_contains(final(self).peers@, old(self).peers@[i].info.addr@),
            final(self).store_map().dom() == old(self).store_map().dom(),
    {
        let my_difficulty = match self.adapter.total_difficulty() {
            Ok(d) => d,
            Err(_) => 0,
        };
        let my_height = match self.adapter.total_height() {
            Ok(h) => h,
            Err(_) => 0,
        };
        let now = now_utc_seconds();
        let now_ms_raw = crate::clock::now_utc_millis();
        let now_ms = if now_ms_raw >= 0 {
            now_ms_raw as u64
        } else {
            0
        };
        self.clean_peers_at(
            max_inbound_count,
            max_outbound_count,
            boost_capability,
            config,
            my_difficulty,
            my_height,
            my_base_fee,
            now,
            now_ms,
        );
    }

    /// Stop every peer and empty the live map; the host joins the worker
    /// threads.
    pub fn stop(&mut self)
        requires
            old(self).wf(),
        ensures
            final(self).wf(),
            final(self).live_map() == Map::<AddrSpec, Peer>::empty(),
            *final(self) == (Peers { peers: final(self).peers, ..*old(self) }),
    {
        let mut i: usize = 0;
        while i < self.peers.len()
            invariant
                *self == (Peers { peers: self.peers, ..*old(self) }),
                0 <= i <= self.peers@.len(),
            decreases self.peers@.len() - i,
        {
            let p = &mut self.peers[i];
            p.stop();
            i = i + 1;
        }
        self.peers = Vec::new();
        proof {
            assert(final(self).live_map() =~= Map::<AddrSpec, Peer>::empty());
        }
    }

    /// Whether enough outbound peers are connected: at least the preferred
    /// minimum, and outside of sync at least half of them matching our
    /// base fee.
    pub fn enough_outbound_peers(&self, my_fee_base: u64) -> (r: bool)
        requires
            self.wf(),
        ensures
            r == {
                let count = outbound_connected_from(self.peers@, 0, self.excluded_views());
                let matched = outbound_fee_matched_from(
                    self.peers@,
                    0,
                    self.excluded_views(),
                    my_fee_base,
                );
                if self.boost_peers_capabilities.capabilities.bits != 0 {
                    count >= self.config.peer_min_preferred_outbound_count_sync
                } else {
                    count >= self.config.peer_min_preferred_outbound_count && matched
                        >= self.config.peer_min_preferred_outbound_count / 2
                }
            },
    {
        let ghost s0 = self.peers@;
        let ghost excl = self.excluded_views();
        let mut count: usize = 0;
        let mut matched: usize = 0;
        let mut j: usize = 0;
        while j < self.peers.len()
            invariant
                self.wf(),
                self.peers@ == s0,
                self.excluded_views() == excl,
                0 <= j <= s0.len(),
                count <= j,
                matched <= j,
                count + outbound_connected_from(s0, j as int, excl) == outbound_connected_from(
                    s0,
                    0,
                    excl,
                ),
                matched + outbound_fee_matched_from(s0, j as int, excl, my_fee_base)
                    == outbound_fee_matched_from(s0, 0, excl, my_fee_base),
            decreases s0.len() - j,
        {
            let p = &self.peers[j];
            let visible = p.is_connected() && !crate::types::addr_list_contains(
                &self.excluded_peers,
                &p.info.addr,
            ) && matches!(p.info.direction, crate::types::Direction::Outbound);
            if visible {
                count = count + 1;
                if p.info.tx_base_fee <= my_fee_base {
                    matched = matched + 1;
                }
            }
            j = j + 1;
        }
        let sync_mode = self.is_sync_mode();
        let need_count = self.config.peer_min_preferred_outbound_count_for(sync_mode);
        if sync_mode {
            count as u64 >= need_count as u64
        } else {
            count as u64 >= need_count as u64 && matched as u64 >= (need_count / 2) as u64
        }
    }

    /// Drop defunct records whose last connection lies past the expiry
    /// horizon ending at `now`.
    pub fn remove_expired_at(&mut self, now: i64)
        requires
            old(self).wf(),
        ensures
            final(self).wf(),
            *final(self) == (Peers { store: final(self).store, ..*old(self) }),
            final(self).store.records@ == old(self).store.records@.filter(
                |d: PeerData|
                    !(d.flags == State::Defunct && d.last_connected <= expiry_cutoff(now)),
            ),
    {
        let cutoff = if now >= i64::MIN + PEER_EXPIRATION_REMOVE_TIME_SECS {
            now - PEER_EXPIRATION_REMOVE_TIME_SECS
        } else {
            i64::MIN
        };
        self.store.delete_defunct_older_than(cutoff);
    }

    /// Drop expired defunct records as of the wall clock.
    pub fn remove_expired(&mut self)
        requires
            old(self).wf(),
        ensures
            final(self).wf(),
            *final(self) == (Peers { store: final(self).store, ..*old(self) }),
            // only defunct records can go; every other record stays
            forall|a: AddrSpec|
                old(self).store_map().dom().contains(a) && old(self).store_map()[a].flags
                    != State::Defunct ==> final(self).store_map().dom().contains(a) && final(self).store_map()[a] == old(self).store_map()[a],
            forall|a: AddrSpec|
                final(self).store_map().dom().contains(a) ==> old(self).store_map().dom().contains(a) && final(self).store_map()[a] == old(self).store_map()[a],
    {
        let now = now_utc_seconds();
        let ghost pre = self.store.records@;
        self.remove_expired_at(now);
        proof {
            let f = |d: PeerData|
                !(d.flags == State::Defunct && d.last_connected <= expiry_cutoff(now));
            crate::store::lemma_filter_keeps_unique(pre, f);
            assert forall|a: AddrSpec|
                final(self).store_map().dom().contains(a) implies old(self).store_map().dom().contains(a) && final(self).store_map()[a] == old(self).store_map()[a] by {
                let post = final(self).store.records@;
                let k = crate::store::sd_index_of(post, a);
                assert(0 <= k < post.len() && post[k].addr@ == a);
                assert(crate::store::sd_contains(pre, a));
                let k0 = crate::store::sd_index_of(pre, a);
                assert(0 <= k0 < pre.len() && pre[k0].addr@ == a);
                assert(post[k] == pre[crate::store::sd_index_of(pre, post[k].addr@)]) by {
                    assert(pre.contains(post[k])) by {
                        crate::store::lemma_filter_membership(pre, f, k);
                    }
                    let k1 = choose|k1: int| 0 <= k1 < pre.len() && pre[k1] == post[k];
                    crate::store::lemma_sd_index_unique(pre, a, k1);
                }
            }
            assert forall|a: AddrSpec|
                old(self).store_map().dom().contains(a) && old(self).store_map()[a].flags
                    != State::Defunct implies final(self).store_map().dom().contains(a) && final(self).store_map()[a] == old(self).store_map()[a] by {
                let k0 = crate::store::sd_index_of(pre, a);
                assert(0 <= k0 < pre.len() && pre[k0].addr@ == a);
                assert(f(pre[k0]));
                let post = final(self).store.records@;
                assert(post.contains(pre[k0])) by {
                    pre.lemma_filter_contains(f, k0);
                }
                let k = choose|k: int| 0 <= k < post.len() && post[k] == pre[k0];
                crate::store::lemma_sd_index_unique(post, a, k);
            }
        }
    }
}

/// A removal-list push: the views grow by the pushed address and nothing
/// already listed is lost.
fn rm_push(rm: &mut Vec<PeerAddr>, addr: PeerAddr)
    ensures
        addr_views(final(rm)@) == addr_views(old(rm)@).push(addr@),
        forall|a: AddrSpec|
            addrs_contain(addr_views(old(rm)@), a) ==> addrs_contain(addr_views(final(rm)@), a),
        addrs_contain(addr_views(final(rm)@), addr@),
        final(rm)@.len() == old(rm)@.len() + 1,
{
    let ghost a0 = addr@;
    rm.push(addr);
    proof {
        assert(addr_views(rm@) =~= addr_views(old(rm)@).push(a0));
        assert forall|a: AddrSpec|
            addrs_contain(addr_views(old(rm)@), a) implies addrs_contain(
            addr_views(rm@),
            a,
        ) by {
            let k = choose|k: int|
                0 <= k < addr_views(old(rm)@).len() && addr_views(old(rm)@)[k] == a;
            assert(addr_views(rm@)[k] == a);
        }
        assert(addr_views(rm@)[addr_views(rm@).len() - 1] == a0);
    }
}

/// Saturating subtraction on sizes.
fn usat_sub(a: usize, b: usize) -> (r: usize)
    ensures
        r == if a >= b {
            a - b
        } else {
            0
        },
{
    if a >= b {
        a - b
    } else {
        0
    }
}

/// The verdict of the flag pass over one peer.
#[derive(Clone, Copy, Debug, PartialEq, Eq, Structural)]
enum Verdict {
    Keep,
    Remove,
    MarkBanned,
    MarkDefunct,
}

/// One ranked candidate for excess-outbound shedding.
#[derive(Debug)]
struct ScoredAddr {
    addr: PeerAddr,
    score: u64,
}

/// The consecutive-failure count recorded for an address, 0 when none.
pub open spec fn failure_count_of(s: Seq<FailureCount>, a: AddrSpec) -> u32
    decreases s.len(),
{
    if s.len() == 0 {
        0
    } else if s[0].addr@ == a {
        s[0].count
    } else {
        failure_count_of(s.drop_first(), a)
    }
}

/// A failure counter after one more observation, saturating.
pub open spec fn bumped(c: u32) -> u32 {
    if c == u32::MAX {
        c
    } else {
        (c + 1) as u32
    }
}

/// Whether the underperformance policy watches this peer: visible,
/// connected, outbound and not preferred.
pub open spec fn underperf_candidate(p: Peer, excl: Seq<AddrSpec>, prefs: Seq<AddrSpec>) -> bool {
    p.connected && !addrs_contain(excl, p.info.addr@) && p.info.is_outbound() && !addrs_contain(
        prefs,
        p.info.addr@,
    )
}

/// Whether `s` holds a flagged peer under address `a`.
pub open spec fn flagged_at(
    s: Seq<Peer>,
    a: AddrSpec,
    threshold: u64,
    my_difficulty: u64,
    now: i64,
    now_ms: u64,
) -> bool {
    exists|i: int|
        0 <= i < s.len() && #[trigger] s[i].info.addr@ == a && prune_flagged(
            s[i],
            threshold,
            my_difficulty,
            now,
            now_ms,
        )
}

/// What a prune cycle may list for removal: a non-excluded address that
/// either belongs to a flagged peer or is not preferred — so excluded
/// peers are out of reach entirely, and preferred peers can leave only
/// flagged.
pub open spec fn removable(
    a: AddrSpec,
    s: Seq<Peer>,
    excl: Seq<AddrSpec>,
    prefs: Seq<AddrSpec>,
    threshold: u64,
    my_difficulty: u64,
    now: i64,
    now_ms: u64,
) -> bool {
    !addrs_contain(excl, a) && (flagged_at(s, a, threshold, my_difficulty, now, now_ms)
        || !addrs_contain(prefs, a))
}

/// Appending a counter for an unrecorded address sets that address's
/// count and moves no other.
proof fn lemma_failure_count_append(
    pre: Seq<FailureCount>,
    post: Seq<FailureCount>,
    a: AddrSpec,
    c: u32,
)
    requires
        post.len() == pre.len() + 1,
        forall|j: int| 0 <= j < pre.len() ==> post[j] == pre[j],
        post.last().addr@ == a,
        post.last().count == c,
        forall|j: int| 0 <= j < pre.len() ==> pre[j].addr@ != a,
    ensures
        failure_count_of(post, a) == c,
        forall|b: AddrSpec| b != a ==> failure_count_of(post, b) == failure_count_of(pre, b),
    decreases pre.len(),
{
    if pre.len() == 0 {
        assert(post[0] == post.last());
        assert forall|b: AddrSpec|
            b != a implies failure_count_of(post, b) == failure_count_of(pre, b) by {
            assert(post.drop_first() =~= Seq::<FailureCount>::empty());
            assert(failure_count_of(post, b) == failure_count_of(post.drop_first(), b));
            assert(failure_count_of(post.drop_first(), b) == 0);
            assert(failure_count_of(pre, b) == 0);
        }
    } else {
        let prer = pre.drop_first();
        let postr = post.drop_first();
        assert(postr.len() == prer.len() + 1);
        assert(forall|j: int| 0 <= j < prer.len() ==> postr[j] == prer[j]);
        assert(postr.last() == post.last());
        lemma_failure_count_append(prer, postr, a, c);
        assert(post[0] == pre[0]);
        assert(pre[0].addr@ != a);
        assert forall|b: AddrSpec|
            b != a implies failure_count_of(post, b) == failure_count_of(pre, b) by {
            if b != post[0].addr@ {
                assert(failure_count_of(post, b) == failure_count_of(postr, b));
                assert(failure_count_of(pre, b) == failure_count_of(prer, b));
            }
        }
    }
}

/// The consecutive-failure count recorded for an address, 0 if none.
fn failures_lookup(failures: &Vec<FailureCount>, addr: &PeerAddr) -> (r: u32)
    ensures
        r == failure_count_of(failures@, addr@),
{
    let mut i: usize = 0;
    proof {
        assert(failures@.skip(0int) =~= failures@);
    }
    while i < failures.len()
        invariant
            0 <= i <= failures@.len(),
            failure_count_of(failures@, addr@) == failure_count_of(
                failures@.skip(i as int),
                addr@,
            ),
        decreases failures@.len() - i,
    {
        proof {
            assert(failures@.skip(i as int).drop_first() =~= failures@.skip(i + 1int));
            assert(failures@.skip(i as int)[0] == failures@[i as int]);
        }
        if &failures[i].addr == addr {
            return failures[i].count;
        }
        i = i + 1;
    }
    proof {
        assert(failures@.skip(failures@.len() as int) =~= Seq::<FailureCount>::empty());
    }
    0
}

/// Whether a broadcast payload applies to a peer, the exec side of
/// [`bm_applicable`].
fn broadcast_applies(m: &BroadcastMsg, p: &Peer) -> (r: bool)
    ensures
        r == bm_applicable(*m, *p),
{
    match m {
        BroadcastMsg::Transaction { tx, height } => tx.base_fee >= p.info.tx_base_fee,
        _ => true,
    }
}

/// Whether a peer is flagged for removal on sight: banned, no longer
/// connected, abusive, or stuck below our difficulty.
pub open spec fn prune_flagged(
    p: Peer,
    threshold: u64,
    my_difficulty: u64,
    now: i64,
    now_ms: u64,
) -> bool {
    ||| p.banned
    ||| !p.connected
    ||| p.spec_is_abusive(now_ms, threshold)
    ||| (p.spec_is_stuck(now) && p.info.total_difficulty < my_difficulty)
}

/// The abusive case of the flagging, with its precedence: only a
/// connected, not-yet-banned peer is marked abusive.
pub open spec fn prune_abusive(p: Peer, threshold: u64, now_ms: u64) -> bool {
    !p.banned && p.connected && p.spec_is_abusive(now_ms, threshold)
}

/// The stuck case of the flagging, with its precedence.
pub open spec fn prune_stuck(
    p: Peer,
    threshold: u64,
    my_difficulty: u64,
    now: i64,
    now_ms: u64,
) -> bool {
    !p.banned && p.connected && !p.spec_is_abusive(now_ms, threshold) && p.spec_is_stuck(now)
        && p.info.total_difficulty < my_difficulty
}

/// An outbound peer two or more blocks behind us with lower difficulty:
/// the underperformance policy counts such observations.
pub open spec fn underperforming(p: Peer, my_difficulty: u64, my_height: u64) -> bool {
    p.info.height < (if my_height >= 2 {
        my_height - 2
    } else {
        0
    }) && p.info.total_difficulty < my_difficulty
}

/// How many peers of `s` from index `k` on are visible connected outbound.
pub open spec fn outbound_connected_from(s: Seq<Peer>, k: int, excl: Seq<AddrSpec>) -> nat
    decreases s.len() - k,
{
    if k < 0 || k >= s.len() {
        0
    } else {
        (if s[k].connected && !addrs_contain(excl, s[k].info.addr@) && s[k].info.is_outbound() {
            1nat
        } else {
            0nat
        }) + outbound_connected_from(s, k + 1, excl)
    }
}

/// How long a defunct record may linger without a connection before it
/// expires, in seconds: two weeks.
pub const PEER_EXPIRATION_REMOVE_TIME_SECS: i64 = 14 * 24 * 3600;

/// The expiry horizon of a sweep at `now`: records last connected at or
/// before it may go.
pub open spec fn expiry_cutoff(now: i64) -> int {
    if now - PEER_EXPIRATION_REMOVE_TIME_SECS >= i64::MIN {
        now - PEER_EXPIRATION_REMOVE_TIME_SECS
    } else {
        i64::MIN as int
    }
}

/// How many peers of `s` from index `k` on are visible connected outbound
/// with a base fee at or under ours.
pub open spec fn outbound_fee_matched_from(
    s: Seq<Peer>,
    k: int,
    excl: Seq<AddrSpec>,
    my_fee_base: u64,
) -> nat
    decreases s.len() - k,
{
    if k < 0 || k >= s.len() {
        0
    } else {
        (if s[k].connected && !addrs_contain(excl, s[k].info.addr@) && s[k].info.is_outbound()
            && s[k].info.tx_base_fee <= my_fee_base {
            1nat
        } else {
            0nat
        }) + outbound_fee_matched_from(s, k + 1, excl, my_fee_base)
    }
}

/// How many peers of `s` from index `k` on are visible connected inbound.
pub open spec fn inbound_connected_from(s: Seq<Peer>, k: int, excl: Seq<AddrSpec>) -> nat
    decreases s.len() - k,
{
    if k < 0 || k >= s.len() {
        0
    } else {
        (if s[k].connected && !addrs_contain(excl, s[k].info.addr@) && s[k].info.is_inbound() {
            1nat
        } else {
            0nat
        }) + inbound_connected_from(s, k + 1, excl)
    }
}

/// A registry state on which one prune cycle has nothing to do: no peer is
/// flagged or underperforming, and no cap is exceeded.
pub open spec fn clean_noop_input(
    s: Seq<Peer>,
    excl: Seq<AddrSpec>,
    max_inbound_count: usize,
    max_outbound_count: usize,
    boost_capability: Capabilities,
    threshold: u64,
    my_difficulty: u64,
    my_height: u64,
    now: i64,
    now_ms: u64,
) -> bool {
    &&& (forall|i: int|
        0 <= i < s.len() && !addrs_contain(excl, s[i].info.addr@) ==> !prune_flagged(
            s[i],
            threshold,
            my_difficulty,
            now,
            now_ms,
        ))
    &&& (forall|i: int|
        0 <= i < s.len() && !addrs_contain(excl, s[i].info.addr@) && s[i].connected
            && s[i].info.is_outbound() ==> !underperforming(s[i], my_difficulty, my_height))
    &&& outbound_connected_from(s, 0, excl) <= max_outbound_count
    &&& (boost_capability.bits == 0 || outbound_connected_from(s, 0, excl)
        <= max_outbound_count / 2)
    &&& inbound_connected_from(s, 0, excl) <= max_inbound_count
}

/// A read-only snapshot of one live peer, as iteration hands it out.
#[derive(Debug)]
pub struct PeerLite {
    pub info: crate::types::PeerInfo,
    pub connected: bool,
    pub banned: bool,
}

/// The snapshot of a peer.
pub open spec fn lite_of(p: Peer) -> PeerLite {
    PeerLite { info: p.info, connected: p.connected, banned: p.banned }
}

impl Clone for PeerLite {
    fn clone(&self) -> (r: Self)
        ensures
            r == *self,
    {
        PeerLite { info: self.info.clone(), connected: self.connected, banned: self.banned }
    }
}

/// One broadcast payload, fanned out to every connected peer it applies
/// to.
#[derive(Debug)]
pub enum BroadcastMsg {
    CompactBlock { block: crate::msg::CompactBlock },
    Header { header: crate::msg::BlockHeader },
    /// A transaction and the height its base fee was computed at; it
    /// applies only to peers whose minimum base fee it meets.
    Transaction { tx: crate::msg::Transaction, height: u64 },
    Ping { total_difficulty: u64, height: u64 },
}

/// The wire message a broadcast enqueues.
pub open spec fn bm_msg(m: BroadcastMsg) -> crate::msg::MsgSpec {
    match m {
        BroadcastMsg::CompactBlock { block } => crate::msg::MsgSpec::CompactBlock { block },
        BroadcastMsg::Header { header } => crate::msg::MsgSpec::Header { header },
        BroadcastMsg::Transaction { tx, height } => crate::msg::MsgSpec::Transaction {
            body: tx.body@,
            base_fee: tx.base_fee,
        },
        BroadcastMsg::Ping { total_difficulty, height } => crate::msg::MsgSpec::Ping {
            total_difficulty,
            height,
        },
    }
}

/// Whether the payload applies to this peer at all: a transaction is only
/// offered to peers that accept its base fee.
pub open spec fn bm_applicable(m: BroadcastMsg, p: Peer) -> bool {
    match m {
        BroadcastMsg::Transaction { tx, height } => tx.base_fee >= p.info.tx_base_fee,
        _ => true,
    }
}

/// Whether a broadcast attempts a send to this peer: it must be connected,
/// not excluded, and the payload must apply.
pub open spec fn bm_sends_to(p: Peer, m: BroadcastMsg, excl: Seq<AddrSpec>) -> bool {
    p.connected && !addrs_contain(excl, p.info.addr@) && bm_applicable(m, p)
}

/// A peer a broadcast removes: one whose send fails, which happens exactly
/// when its queue is disconnected.
pub open spec fn bm_removes(p: Peer, m: BroadcastMsg, excl: Seq<AddrSpec>) -> bool {
    bm_sends_to(p, m, excl) && p.conn.queue.disconnected
}

/// A send a broadcast counts: attempted and not failed.
pub open spec fn bm_counted(p: Peer, m: BroadcastMsg, excl: Seq<AddrSpec>) -> bool {
    bm_sends_to(p, m, excl) && !p.conn.queue.disconnected
}

/// How many sends a broadcast over `s` counts, from index `k` on.
pub open spec fn bm_count_from(s: Seq<Peer>, k: int, m: BroadcastMsg, excl: Seq<AddrSpec>) -> nat
    decreases s.len() - k,
{
    if k < 0 || k >= s.len() {
        0
    } else {
        (if bm_counted(s[k], m, excl) {
            1nat
        } else {
            0nat
        }) + bm_count_from(s, k + 1, m, excl)
    }
}

/// A broadcast counts at most one send per remaining peer.
pub proof fn lemma_bm_count_bound(s: Seq<Peer>, k: int, m: BroadcastMsg, excl: Seq<AddrSpec>)
    requires
        0 <= k <= s.len(),
    ensures
        bm_count_from(s, k, m, excl) <= s.len() - k,
    decreases s.len() - k,
{
    if k < s.len() {
        lemma_bm_count_bound(s, k + 1, m, excl);
    }
}

/// What one broadcast leaves of the peer that entered it as `p`: removed
/// when its send failed; enqueued at most once otherwise; untouched when
/// the send was never attempted.
pub open spec fn bm_processed(p: Peer, m: BroadcastMsg, excl: Seq<AddrSpec>, kept: Seq<Peer>) -> bool {
    if bm_removes(p, m, excl) {
        !sp_contains(kept, p.info.addr@)
    } else {
        sp_contains(kept, p.info.addr@) && {
            let q = kept[sp_index_of(kept, p.info.addr@)];
            if bm_counted(p, m, excl) {
                Peer::send_outcome(p, q, bm_msg(m), Ok(()))
            } else {
                q == p
            }
        }
    }
}

/// The healthy record that admitting `peer` at `now` persists.
pub open spec fn connected_record(peer: Peer, now: i64) -> PeerData {
    PeerData {
        addr: peer.info.addr,
        capabilities: peer.info.capabilities,
        user_agent: peer.info.user_agent,
        flags: State::Healthy,
        last_banned: 0,
        ban_reason: ReasonForBan::NoReason,
        last_connected: now,
    }
}

/// The number of live peers equals the number of distinct addresses.
pub proof fn lemma_sp_map_len(s: Seq<Peer>)
    requires
        sp_unique(s),
    ensures
        sp_map(s).dom().len() == s.len(),
        sp_map(s).dom().finite(),
    decreases s.len(),
{
    if s.len() == 0 {
        assert(sp_map(s).dom() =~= Set::<AddrSpec>::empty());
    } else {
        let d = s.drop_last();
        assert(sp_unique(d));
        lemma_sp_map_len(d);
        assert(sp_map(s).dom() =~= sp_map(d).dom().insert(s.last().info.addr@)) by {
            assert forall|b: AddrSpec| #[trigger] sp_contains(s, b) implies sp_contains(d, b) || b
                == s.last().info.addr@ by {
                let k = choose|k: int| 0 <= k < s.len() && s[k].info.addr@ == b;
                if k < s.len() - 1 {
                    assert(d[k].info.addr@ == b);
                }
            }
            assert forall|b: AddrSpec| #[trigger] sp_contains(d, b) implies sp_contains(s, b) by {
                let k = choose|k: int| 0 <= k < d.len() && d[k].info.addr@ == b;
                assert(s[k].info.addr@ == b);
            }
        }
        assert(!sp_map(d).dom().contains(s.last().info.addr@)) by {
            if sp_contains(d, s.last().info.addr@) {
                let k = choose|k: int| 0 <= k < d.len() && d[k].info.addr@ == s.last().info.addr@;
                assert(s[k].info.addr@ != s[s.len() - 1].info.addr@);
            }
        }
    }
}

/// An empty string.
fn new_string() -> (s: String)
    ensures
        s@ == Seq::<char>::empty(),
{
    String::new()
}

/// The peer snapshots of `s`, skipping excluded addresses, in standing
/// order.
pub open spec fn lites_of(s: Seq<Peer>, excl: Seq<AddrSpec>) -> Seq<PeerLite>
    decreases s.len(),
{
    if s.len() == 0 {
        Seq::empty()
    } else {
        let rest = lites_of(s.drop_last(), excl);
        if addrs_contain(excl, s.last().info.addr@) {
            rest
        } else {
            rest.push(lite_of(s.last()))
        }
    }
}

/// A snapshot of the current peers, behind a chainable filter pipeline.
/// Each adaptor narrows the snapshot; nothing here touches the registry.
#[derive(Debug)]
pub struct PeersIter {
    pub items: Vec<PeerLite>,
}

impl<A: ChainAdapter> Peers<A> {
    /// A snapshot of the current peers, excluded addresses left out.
    pub fn iter(&self) -> (it: PeersIter)
        requires
            self.wf(),
        ensures
            it.items@ == lites_of(self.peers@, self.excluded_views()),
    {
        let ghost s0 = self.peers@;
        let ghost excl = self.excluded_views();
        let mut items: Vec<PeerLite> = Vec::new();
        let mut i: usize = 0;
        proof {
            assert(lites_of(s0.take(0int), excl) =~= Seq::<PeerLite>::empty());
        }
        while i < self.peers.len()
            invariant
                self.wf(),
                self.peers@ == s0,
                self.excluded_views() == excl,
                0 <= i <= s0.len(),
                items@ == lites_of(s0.take(i as int), excl),
            decreases s0.len() - i,
        {
            let p = &self.peers[i];
            proof {
                assert(s0.take(i + 1int).drop_last() =~= s0.take(i as int));
                assert(s0.take(i + 1int).last() == s0[i as int]);
            }
            if !crate::types::addr_list_contains(&self.excluded_peers, &p.info.addr) {
                items.push(
                    PeerLite { info: p.info.clone(), connected: p.connected, banned: p.banned },
                );
            }
            i = i + 1;
        }
        proof {
            assert(s0.take(s0.len() as int) =~= s0);
        }
        PeersIter { items }
    }
}

impl PeersIter {
    /// Keep the peers that hold a live connection.
    pub fn connected(self) -> (r: PeersIter)
        ensures
            r.items@ == self.items@.filter(|l: PeerLite| l.connected),
    {
        let mut items: Vec<PeerLite> = Vec::new();
        let mut i: usize = 0;
        proof {
            assert(self.items@.take(0int).filter(|l: PeerLite| l.connected) =~= Seq::<
                PeerLite,
            >::empty());
        }
        while i < self.items.len()
            invariant
                0 <= i <= self.items@.len(),
                items@ == self.items@.take(i as int).filter(|l: PeerLite| l.connected),
            decreases self.items@.len() - i,
        {
            proof {
                assert(self.items@.take(i + 1int).drop_last() =~= self.items@.take(i as int));
                reveal_with_fuel(Seq::filter, 2);
            }
            if self.items[i].connected {
                items.push(self.items[i].clone());
            }
            i = i + 1;
        }
        proof {
            assert(self.items@.take(self.items@.len() as int) =~= self.items@);
        }
        PeersIter { items }
    }

    /// Keep the inbound peers.
    pub fn inbound(self) -> (r: PeersIter)
        ensures
            r.items@ == self.items@.filter(|l: PeerLite| l.info.is_inbound()),
    {
        let mut items: Vec<PeerLite> = Vec::new();
        let mut i: usize = 0;
        proof {
            assert(self.items@.take(0int).filter(|l: PeerLite| l.info.is_inbound()) =~= Seq::<
                PeerLite,
            >::empty());
        }
        while i < self.items.len()
            invariant
                0 <= i <= self.items@.len(),
                items@ == self.items@.take(i as int).filter(|l: PeerLite| l.info.is_inbound()),
            decreases self.items@.len() - i,
        {
            proof {
                assert(self.items@.take(i + 1int).drop_last() =~= self.items@.take(i as int));
                reveal_with_fuel(Seq::filter, 2);
            }
            if matches!(self.items[i].info.direction, crate::types::Direction::Inbound) {
                items.push(self.items[i].clone());
            }
            i = i + 1;
        }
        proof {
            assert(self.items@.take(self.items@.len() as int) =~= self.items@);
        }
        PeersIter { items }
    }

    /// Keep the outbound peers.
    pub fn outbound(self) -> (r: PeersIter)
        ensures
            r.items@ == self.items@.filter(|l: PeerLite| l.info.is_outbound()),
    {
        let mut items: Vec<PeerLite> = Vec::new();
        let mut i: usize = 0;
        proof {
            assert(self.items@.take(0int).filter(|l: PeerLite| l.info.is_outbound()) =~= Seq::<
                PeerLite,
            >::empty());
        }
        while i < self.items.len()
            invariant
                0 <= i <= self.items@.len(),
                items@ == self.items@.take(i as int).filter(|l: PeerLite| l.info.is_outbound()),
            decreases self.items@.len() - i,
        {
            proof {
                assert(self.items@.take(i + 1int).drop_last() =~= self.items@.take(i as int));
                reveal_with_fuel(Seq::filter, 2);
            }
            if matches!(self.items[i].info.direction, crate::types::Direction::Outbound) {
                items.push(self.items[i].clone());
            }
            i = i + 1;
        }
        proof {
            assert(self.items@.take(self.items@.len() as int) =~= self.items@);
        }
        PeersIter { items }
    }

    /// Keep peers of either direction: inbound and outbound pass alike.
    pub fn inoutbound(self) -> (r: PeersIter)
        ensures
            r.items@ == self.items@,
    {
        self
    }

    /// Keep the peers whose reported difficulty reaches `min_difficulty`.
    pub fn with_difficulty(self, min_difficulty: u64) -> (r: PeersIter)
        ensures
            r.items@ == self.items@.filter(
                |l: PeerLite| l.info.total_difficulty >= min_difficulty,
            ),
    {
        let mut items: Vec<PeerLite> = Vec::new();
        let mut i: usize = 0;
        proof {
            assert(self.items@.take(0int).filter(
                |l: PeerLite| l.info.total_difficulty >= min_difficulty,
            ) =~= Seq::<PeerLite>::empty());
        }
        while i < self.items.len()
            invariant
                0 <= i <= self.items@.len(),
                items@ == self.items@.take(i as int).filter(
                    |l: PeerLite| l.info.total_difficulty >= min_difficulty,
                ),
            decreases self.items@.len() - i,
        {
            proof {
                assert(self.items@.take(i + 1int).drop_last() =~= self.items@.take(i as int));
                reveal_with_fuel(Seq::filter, 2);
            }
            if self.items[i].info.total_difficulty >= min_difficulty {
                items.push(self.items[i].clone());
            }
            i = i + 1;
        }
        proof {
            assert(self.items@.take(self.items@.len() as int) =~= self.items@);
        }
        PeersIter { items }
    }

    /// Keep the peers advertising every bit of `cap`; an empty set keeps
    /// all.
    pub fn with_capabilities(self, cap: Capabilities) -> (r: PeersIter)
        ensures
            r.items@ == self.items@.filter(
                |l: PeerLite| cap.bits == 0 || l.info.capabilities.spec_contains(cap),
            ),
    {
        let mut items: Vec<PeerLite> = Vec::new();
        let mut i: usize = 0;
        proof {
            assert(self.items@.take(0int).filter(
                |l: PeerLite| cap.bits == 0 || l.info.capabilities.spec_contains(cap),
            ) =~= Seq::<PeerLite>::empty());
        }
        while i < self.items.len()
            invariant
                0 <= i <= self.items@.len(),
                items@ == self.items@.take(i as int).filter(
                    |l: PeerLite| cap.bits == 0 || l.info.capabilities.spec_contains(cap),
                ),
            decreases self.items@.len() - i,
        {
            proof {
                assert(self.items@.take(i + 1int).drop_last() =~= self.items@.take(i as int));
                reveal_with_fuel(Seq::filter, 2);
            }
            if cap.bits == 0 || self.items[i].info.capabilities.contains(cap) {
                items.push(self.items[i].clone());
            }
            i = i + 1;
        }
        proof {
            assert(self.items@.take(self.items@.len() as int) =~= self.items@);
        }
        PeersIter { items }
    }

    /// Keep the peers whose reported height reaches `height`.
    pub fn with_min_height(self, height: u64) -> (r: PeersIter)
        ensures
            r.items@ == self.items@.filter(|l: PeerLite| l.info.height >= height),
    {
        let mut items: Vec<PeerLite> = Vec::new();
        let mut i: usize = 0;
        proof {
            assert(self.items@.take(0int).filter(|l: PeerLite| l.info.height >= height) =~= Seq::<
                PeerLite,
            >::empty());
        }
        while i < self.items.len()
            invariant
                0 <= i <= self.items@.len(),
                items@ == self.items@.take(i as int).filter(|l: PeerLite| l.info.height >= height),
            decreases self.items@.len() - i,
        {
            proof {
                assert(self.items@.take(i + 1int).drop_last() =~= self.items@.take(i as int));
                reveal_with_fuel(Seq::filter, 2);
            }
            if self.items[i].info.height >= height {
                items.push(self.items[i].clone());
            }
            i = i + 1;
        }
        proof {
            assert(self.items@.take(self.items@.len() as int) =~= self.items@);
        }
        PeersIter { items }
    }

    /// The snapshot of the peer with this address, if the pipeline kept
    /// one.
    pub fn by_addr(&self, addr: &PeerAddr) -> (r: Option<PeerLite>)
        ensures
            r is Some <==> exists|i: int|
                0 <= i < self.items@.len() && self.items@[i].info.addr@ == addr@,
            r is Some ==> r->Some_0.info.addr@ == addr@ && self.items@.contains(r->Some_0),
    {
        let mut i: usize = 0;
        while i < self.items.len()
            invariant
                0 <= i <= self.items@.len(),
                forall|j: int| 0 <= j < i ==> self.items@[j].info.addr@ != addr@,
            decreases self.items@.len() - i,
        {
            if &self.items[i].info.addr == addr {
                let l = self.items[i].clone();
                proof {
                    assert(self.items@[i as int] == l);
                }
                return Some(l);
            }
            i = i + 1;
        }
        None
    }

    /// One snapshot chosen at random, `None` only from an empty pipeline.
    pub fn choose_random(self) -> (r: Option<PeerLite>)
        ensures
            r is Some <==> self.items@.len() > 0,
            r is Some ==> self.items@.contains(r->Some_0),
    {
        if self.items.len() == 0 {
            return None;
        }
        let i = crate::rng::random_below(self.items.len());
        let l = self.items[i].clone();
        proof {
            assert(self.items@[i as int] == l);
        }
        Some(l)
    }

    /// The greatest reported difficulty among the kept peers.
    pub fn max_difficulty(self) -> (r: Option<u64>)
        ensures
            r is Some <==> self.items@.len() > 0,
            r is Some ==> (exists|i: int|
                0 <= i < self.items@.len() && self.items@[i].info.total_difficulty == r->Some_0),
            r is Some ==> forall|i: int|
                0 <= i < self.items@.len() ==> self.items@[i].info.total_difficulty <= r->Some_0,
    {
        if self.items.len() == 0 {
            return None;
        }
        let mut best: u64 = self.items[0].info.total_difficulty;
        let mut i: usize = 1;
        while i < self.items.len()
            invariant
                1 <= i <= self.items@.len(),
                exists|j: int|
                    0 <= j < i && self.items@[j].info.total_difficulty == best,
                forall|j: int| 0 <= j < i ==> self.items@[j].info.total_difficulty <= best,
            decreases self.items@.len() - i,
        {
            if self.items[i].info.total_difficulty > best {
                best = self.items[i].info.total_difficulty;
            }
            i = i + 1;
        }
        Some(best)
    }

    /// How many peers the pipeline kept.
    pub fn count(self) -> (r: usize)
        ensures
            r == self.items@.len(),
    {
        self.items.len()
    }

    /// The kept snapshots, in standing order.
    pub fn into_vec(self) -> (r: Vec<PeerLite>)
        ensures
            r@ == self.items@,
    {
        self.items
    }
}

/// The registry intercepts the chain adapter: an object the chain rejects
/// as intrinsically bad gets its sender banned on the spot, and everything
/// else passes straight through.
impl<A: ChainAdapter> Peers<A> {
    /// Our tip difficulty, from the adapter.
    pub fn total_difficulty(&self) -> Result<u64, Error> {
        self.adapter.total_difficulty()
    }

    /// Our tip height, from the adapter.
    pub fn total_height(&self) -> Result<u64, Error> {
        self.adapter.total_height()
    }

    /// A pool transaction by kernel hash, from the adapter.
    pub fn get_transaction(&self, kernel_hash: u64) -> Option<crate::msg::Transaction> {
        self.adapter.get_transaction(kernel_hash)
    }

    /// A kernel announcement, passed through.
    pub fn tx_kernel_received(&self, kernel_hash: u64, peer_info: &crate::types::PeerInfo)
        -> Result<bool, Error> {
        self.adapter.tx_kernel_received(kernel_hash, peer_info)
    }

    /// A full transaction, passed through.
    pub fn transaction_received(&self, tx: crate::msg::Transaction, stem: bool) -> Result<
        bool,
        Error,
    > {
        self.adapter.transaction_received(tx, stem)
    }

    /// Header batches, locators and block reads, passed through.
    pub fn headers_received(
        &self,
        bh: &Vec<crate::msg::BlockHeader>,
        remaining: u64,
        peer_info: &crate::types::PeerInfo,
    ) -> Result<(), Error> {
        self.adapter.headers_received(bh, remaining, peer_info)
    }

    /// Our locator hashes, from the adapter.
    pub fn header_locator(&self) -> Result<Vec<u64>, Error> {
        self.adapter.header_locator()
    }

    /// The headers after a locator, from the adapter.
    pub fn locate_headers(&self, hs: &Vec<u64>) -> Result<Vec<crate::msg::BlockHeader>, Error> {
        self.adapter.locate_headers(hs)
    }

    /// One of our blocks by hash, from the adapter.
    pub fn get_block(&self, h: u64, peer_info: &crate::types::PeerInfo) -> Option<
        crate::msg::Block,
    > {
        self.adapter.get_block(h, peer_info)
    }

    /// A block from a peer. A block the chain rejects as intrinsically bad
    /// bans its sender: the record turns banned and a visible connected
    /// sender leaves the live map.
    pub fn block_received(
        &mut self,
        b: crate::msg::Block,
        peer_info: &crate::types::PeerInfo,
    ) -> (r: Result<bool, Error>)
        requires
            old(self).wf(),
        ensures
            final(self).wf(),
            r == Ok::<bool, Error>(true) ==> *final(self) == *old(self),
            r == Ok::<bool, Error>(false) ==> old(self).store_map().dom().contains(
                peer_info.addr@,
            ) && final(self).store_map()[peer_info.addr@].flags == State::Banned && final(self).live_map() == old(self).live_map().remove(peer_info.addr@),
            r is Err ==> final(self).peers@ == old(self).peers@ && (final(self).store_map()
                == old(self).store_map() || (old(self).store_map().dom().contains(peer_info.addr@)
                && final(self).store_map() == old(self).store_map().insert(
                peer_info.addr@,
                (PeerData { flags: State::Banned, ..old(self).store_map()[peer_info.addr@] }),
            ))),
            *final(self) == (Peers {
                peers: final(self).peers,
                store: final(self).store,
                ..*old(self)
            }),
    {
        match self.adapter.block_received(b, peer_info) {
            Ok(true) => Ok(true),
            Ok(false) => {
                // An intrinsically bad block: the sender is mistaken or
                // malevolent, and both call for a ban.
                match self.ban_peer(&peer_info.addr, ReasonForBan::BadBlock) {
                    Ok(_) => Ok(false),
                    Err(e) => Err(e),
                }
            },
            Err(e) => Err(e),
        }
    }

    /// A compact block from a peer, with the same ban-on-bad rule.
    pub fn compact_block_received(
        &mut self,
        cb: crate::msg::CompactBlock,
        peer_info: &crate::types::PeerInfo,
    ) -> (r: Result<bool, Error>)
        requires
            old(self).wf(),
        ensures
            final(self).wf(),
            r == Ok::<bool, Error>(true) ==> *final(self) == *old(self),
            r == Ok::<bool, Error>(false) ==> old(self).store_map().dom().contains(
                peer_info.addr@,
            ) && final(self).store_map()[peer_info.addr@].flags == State::Banned && final(self).live_map() == old(self).live_map().remove(peer_info.addr@),
            r is Err ==> final(self).peers@ == old(self).peers@ && (final(self).store_map()
                == old(self).store_map() || (old(self).store_map().dom().contains(peer_info.addr@)
                && final(self).store_map() == old(self).store_map().insert(
                peer_info.addr@,
                (PeerData { flags: State::Banned, ..old(self).store_map()[peer_info.addr@] }),
            ))),
            *final(self) == (Peers {
                peers: final(self).peers,
                store: final(self).store,
                ..*old(self)
            }),
    {
        match self.adapter.compact_block_received(cb, peer_info) {
            Ok(true) => Ok(true),
            Ok(false) => {
                match self.ban_peer(&peer_info.addr, ReasonForBan::BadCompactBlock) {
                    Ok(_) => Ok(false),
                    Err(e) => Err(e),
                }
            },
            Err(e) => Err(e),
        }
    }

    /// A lone header from a peer, with the same ban-on-bad rule.
    pub fn header_received(
        &mut self,
        bh: crate::msg::BlockHeader,
        peer_info: &crate::types::PeerInfo,
    ) -> (r: Result<bool, Error>)
        requires
            old(self).wf(),
        ensures
            final(self).wf(),
            r == Ok::<bool, Error>(true) ==> *final(self) == *old(self),
            r == Ok::<bool, Error>(false) ==> old(self).store_map().dom().contains(
                peer_info.addr@,
            ) && final(self).store_map()[peer_info.addr@].flags == State::Banned && final(self).live_map() == old(self).live_map().remove(peer_info.addr@),
            r is Err ==> final(self).peers@ == old(self).peers@ && (final(self).store_map()
                == old(self).store_map() || (old(self).store_map().dom().contains(peer_info.addr@)
                && final(self).store_map() == old(self).store_map().insert(
                peer_info.addr@,
                (PeerData { flags: State::Banned, ..old(self).store_map()[peer_info.addr@] }),
            ))),
            *final(self) == (Peers {
                peers: final(self).peers,
                store: final(self).store,
                ..*old(self)
            }),
    {
        match self.adapter.header_received(bh, peer_info) {
            Ok(true) => Ok(true),
            Ok(false) => {
                match self.ban_peer(&peer_info.addr, ReasonForBan::BadBlockHeader) {
                    Ok(_) => Ok(false),
                    Err(e) => Err(e),
                }
            },
            Err(e) => Err(e),
        }
    }

    /// A peer reported its tip: its live counters move, and the report is
    /// passed down. Only the named peer changes, and only its counters.
    pub fn peer_difficulty_at(&mut self, addr: &PeerAddr, diff: u64, height: u64, now: i64)
        requires
            old(self).wf(),
        ensures
            final(self).wf(),
            *final(self) == (Peers { peers: final(self).peers, ..*old(self) }),
            old(self).spec_visible_connected(addr@) ==> final(self).live_map() == old(self).live_map().insert(
                addr@,
                (Peer {
                    info: (crate::types::PeerInfo {
                        height,
                        total_difficulty: diff,
                        last_diff_advance: if diff > old(self).live_map()[
                            addr@
                        ].info.total_difficulty {
                            now
                        } else {
                            old(self).live_map()[addr@].info.last_diff_advance
                        },
                        ..old(self).live_map()[addr@].info
                    }),
                    ..old(self).live_map()[addr@]
                }),
            ),
            !old(self).spec_visible_connected(addr@) ==> final(self).peers@ == old(self).peers@,
    {
        let visible = match self.get_connected_peer(addr) {
            Some(_) => true,
            None => false,
        };
        if visible {
            match self.live_find_index(addr) {
                Some(i) => {
                    let ghost pre = self.peers@;
                    let p = &mut self.peers[i];
                    p.info.update(height, diff, now);
                    proof {
                        assert(self.peers@ == pre.update(
                            i as int,
                            (Peer { info: self.peers@[i as int].info, ..pre[i as int] }),
                        ));
                        assert forall|x: int, y: int|
                            0 <= x < y < self.peers@.len() implies self.peers@[x].info.addr@
                            != self.peers@[y].info.addr@ by {
                            assert(self.peers@[x].info.addr@ == pre[x].info.addr@);
                            assert(self.peers@[y].info.addr@ == pre[y].info.addr@);
                        }
                        assert forall|b: AddrSpec| #[trigger]
                            sp_contains(self.peers@, b) == sp_contains(pre, b) by {
                            if sp_contains(self.peers@, b) {
                                let k = choose|k: int|
                                    0 <= k < self.peers@.len() && self.peers@[k].info.addr@ == b;
                                assert(pre[k].info.addr@ == b);
                            }
                            if sp_contains(pre, b) {
                                let k = choose|k: int|
                                    0 <= k < pre.len() && pre[k].info.addr@ == b;
                                assert(self.peers@[k].info.addr@ == b);
                            }
                        }
                        assert(final(self).live_map() =~= old(self).live_map().insert(
                            addr@,
                            self.peers@[i as int],
                        )) by {
                            lemma_sp_index_unique(self.peers@, addr@, i as int);
                            assert forall|b: AddrSpec|
                                sp_contains(self.peers@, b) && b != addr@ implies sp_map(
                                self.peers@,
                            )[b] == sp_map(pre)[b] by {
                                let k = sp_index_of(pre, b);
                                lemma_sp_index_unique(pre, b, k);
                                assert(k != i);
                                assert(self.peers@[k] == pre[k]);
                                lemma_sp_index_unique(self.peers@, b, k);
                            }
                        }
                    }
                },
                None => {},
            }
        }
        self.adapter.peer_difficulty(addr, diff, height);
    }

    /// A tip report, timed by the wall clock. Which peers are live never
    /// changes here.
    pub fn peer_difficulty(&mut self, addr: &PeerAddr, diff: u64, height: u64)
        requires
            old(self).wf(),
        ensures
            final(self).wf(),
            *final(self) == (Peers { peers: final(self).peers, ..*old(self) }),
            final(self).peers@.len() == old(self).peers@.len(),
            forall|a: AddrSpec| sp_contains(final(self).peers@, a) == sp_contains(
                old(self).peers@,
                a,
            ),
    {
        let now = now_utc_seconds();
        let ghost pre = self.peers@;
        self.peer_difficulty_at(addr, diff, height, now);
        proof {
            if old(self).spec_visible_connected(addr@) {
                assert(sp_contains(pre, addr@));
                assert forall|a: AddrSpec| #[trigger]
                    sp_contains(final(self).peers@, a) == sp_contains(pre, a) by {
                    assert(final(self).live_map().dom() =~= sp_map(pre).dom().insert(addr@));
                    assert(sp_contains(final(self).peers@, a) == final(self).live_map().dom().contains(a));
                }
                assert(final(self).peers@.len() == pre.len()) by {
                    lemma_sp_map_len(final(self).peers@);
                    lemma_sp_map_len(pre);
                    assert(final(self).live_map().dom() =~= sp_map(pre).dom());
                }
            }
        }
    }

    /// Healthy addresses we know with the given capability, capped at one
    /// gossip reply's worth.
    pub fn find_peer_addrs(&self, capab: Capabilities) -> (r: Vec<PeerAddr>)
        requires
            self.wf(),
        ensures
            addr_views(r@) == healthy_addr_views(self.store.records@, capab).take(
                if healthy_addr_views(self.store.records@, capab).len() <= MAX_PEER_ADDRS {
                    healthy_addr_views(self.store.records@, capab).len() as int
                } else {
                    MAX_PEER_ADDRS as int
                },
            ),
    {
        let found = self.find_peers(State::Healthy, capab);
        let ghost fseq = self.store.records@.filter(
            |d: PeerData| d.flags == State::Healthy && d.capabilities.spec_contains(capab),
        );
        let mut r: Vec<PeerAddr> = Vec::new();
        let mut i: usize = 0;
        while i < found.len() && i < MAX_PEER_ADDRS
            invariant
                found@ == fseq,
                0 <= i <= fseq.len(),
                i <= MAX_PEER_ADDRS,
                r@.len() == i,
                forall|j: int| 0 <= j < i ==> r@[j]@ == fseq[j].addr@,
            decreases fseq.len() - i,
        {
            r.push(found[i].addr.clone());
            i = i + 1;
        }
        proof {
            let cap2 = if fseq.len() <= MAX_PEER_ADDRS {
                fseq.len() as int
            } else {
                MAX_PEER_ADDRS as int
            };
            assert(addr_views(r@) =~= healthy_addr_views(self.store.records@, capab).take(cap2))
                by {
                assert forall|j: int| 0 <= j < r@.len() implies addr_views(r@)[j]
                    == healthy_addr_views(self.store.records@, capab)[j] by {
                    assert(addr_views(r@)[j] == r@[j]@);
                    assert(healthy_addr_views(self.store.records@, capab)[j] == fseq[j].addr@);
                }
            }
        }
        r
    }

    /// Gossiped addresses: each one we have never seen gets a fresh
    /// healthy record, never connected; known addresses stay untouched.
    pub fn peer_addrs_received(&mut self, peer_addrs: Vec<PeerAddr>)
        requires
            old(self).wf(),
        ensures
            final(self).wf(),
            *final(self) == (Peers { store: final(self).store, ..*old(self) }),
            forall|a: AddrSpec|
                final(self).store_map().dom().contains(a) == (old(self).store_map().dom().contains(
                    a,
                ) || addrs_contain(addr_views(peer_addrs@), a)),
            forall|a: AddrSpec| #[trigger]
                old(self).store_map().dom().contains(a) ==> final(self).store_map()[a] == old(self).store_map()[a],
            forall|a: AddrSpec|
                !old(self).store_map().dom().contains(a) && final(self).store_map().dom().contains(
                    a,
                ) ==> final(self).store_map()[a].addr@ == a && final(self).store_map()[a].flags
                    == State::Healthy && final(self).store_map()[a].last_connected == 0 && final(self).store_map()[a].ban_reason == ReasonForBan::NoReason && final(self).store_map()[a].last_banned == 0 && final(self).store_map()[a].capabilities.bits == 0
                    && final(self).store_map()[a].user_agent@ == Seq::<char>::empty(),
    {
        let ghost st0 = self.store_map();
        let ghost views = addr_views(peer_addrs@);
        let mut i: usize = 0;
        while i < peer_addrs.len()
            invariant
                self.wf(),
                *self == (Peers { store: self.store, ..*old(self) }),
                st0 == old(self).store_map(),
                views == addr_views(peer_addrs@),
                0 <= i <= peer_addrs@.len(),
                gossip_dom_inv(self.store_map(), st0, views, i as int),
                forall|a: AddrSpec| #[trigger]
                    st0.dom().contains(a) ==> self.store_map()[a] == st0[a],
                forall|a: AddrSpec|
                    !st0.dom().contains(a) && self.store_map().dom().contains(a)
                        ==> self.store_map()[a].addr@ == a && self.store_map()[a].flags
                        == State::Healthy && self.store_map()[a].last_connected == 0
                        && self.store_map()[a].ban_reason == ReasonForBan::NoReason
                        && self.store_map()[a].last_banned == 0
                        && self.store_map()[a].capabilities.bits == 0
                        && self.store_map()[a].user_agent@ == Seq::<char>::empty(),
            decreases peer_addrs@.len() - i,
        {
            let pa = &peer_addrs[i];
            let ghost pre_map = self.store_map();
            let known = self.store.exists_peer(pa);
            if !known {
                let record = PeerData {
                    addr: pa.clone(),
                    capabilities: Capabilities::unknown(),
                    user_agent: new_string(),
                    flags: State::Healthy,
                    last_banned: 0,
                    ban_reason: ReasonForBan::NoReason,
                    last_connected: 0,
                };
                self.store.save_peer(&record);
            }
            proof {
                assert(views[i as int] == peer_addrs@[i as int]@);
                let a_i = views[i as int];
                if !known {
                    assert(!pre_map.dom().contains(a_i));
                }
                assert forall|a: AddrSpec| #![trigger st0.dom().contains(a)]
                    self.store_map().dom().contains(a) == (st0.dom().contains(a) || addrs_contain(
                        views.take(i + 1int),
                        a,
                    )) by {
                    assert(gossip_dom_inv(pre_map, st0, views, i as int));
                    assert(pre_map.dom().contains(a) == (st0.dom().contains(a) || addrs_contain(
                        views.take(i as int),
                        a,
                    )));
                    assert(self.store_map().dom().contains(a) == (pre_map.dom().contains(a) || a
                        == a_i)) by {
                        if known {
                            assert(pre_map.dom().contains(a_i));
                        }
                    }
                    assert(addrs_contain(views.take(i + 1int), a) == (addrs_contain(
                        views.take(i as int),
                        a,
                    ) || a == a_i)) by {
                        if addrs_contain(views.take(i + 1int), a) {
                            let k = choose|k: int|
                                0 <= k < i + 1 && #[trigger] views.take(i + 1int)[k] == a;
                            if k < i as int {
                                assert(views.take(i as int)[k] == a);
                                assert(addrs_contain(views.take(i as int), a));
                            } else {
                                assert(a == a_i);
                            }
                        }
                        if addrs_contain(views.take(i as int), a) {
                            let k = choose|k: int|
                                0 <= k < i && #[trigger] views.take(i as int)[k] == a;
                            assert(views.take(i + 1int)[k] == a);
                        }
                        if a == a_i {
                            assert(views.take(i + 1int)[i as int] == a);
                        }
                    }
                }
                assert(gossip_dom_inv(self.store_map(), st0, views, i + 1int));
            }
            i = i + 1;
        }
        proof {
            assert(views.take(views.len() as int) =~= views);
            assert(gossip_dom_inv(self.store_map(), st0, views, views.len() as int));
        }
    }
}

/// The network-event surface, served by the registry itself.
impl<A: ChainAdapter> crate::adapters::NetAdapter for Peers<A> {
    open spec fn inv(&self) -> bool {
        self.wf()
    }

    fn find_peer_addrs(&self, capab: Capabilities) -> Vec<PeerAddr> {
        Peers::find_peer_addrs(self, capab)
    }

    fn peer_addrs_received(&mut self, peer_addrs: Vec<PeerAddr>) {
        Peers::peer_addrs_received(self, peer_addrs);
    }

    fn net_is_banned(&self, addr: &PeerAddr) -> bool {
        self.is_banned(addr)
    }

    fn net_ban_peer(&mut self, addr: &PeerAddr, ban_reason: ReasonForBan) {
        let _ = self.ban_peer(addr, ban_reason);
    }
}

/// The addresses of the visible connected outbound peers of `s`.
pub open spec fn vis_out_addrs(s: Seq<Peer>, excl: Seq<AddrSpec>) -> Set<AddrSpec> {
    Set::new(
        |a: AddrSpec|
            exists|i: int|
                0 <= i < s.len() && s[i].info.addr@ == a && s[i].connected && !addrs_contain(
                    excl,
                    a,
                ) && s[i].info.is_outbound(),
    )
}

/// The addresses of the visible connected inbound peers of `s`.
pub open spec fn vis_in_addrs(s: Seq<Peer>, excl: Seq<AddrSpec>) -> Set<AddrSpec> {
    Set::new(
        |a: AddrSpec|
            exists|i: int|
                0 <= i < s.len() && s[i].info.addr@ == a && s[i].connected && !addrs_contain(
                    excl,
                    a,
                ) && s[i].info.is_inbound(),
    )
}

/// Two disjoint subsets of a finite set fit inside it together.
proof fn lemma_disjoint_subsets_len(a: Set<AddrSpec>, b: Set<AddrSpec>, s: Set<AddrSpec>)
    requires
        s.finite(),
        a.subset_of(s),
        b.subset_of(s),
        a.disjoint(b),
    ensures
        a.len() + b.len() <= s.len(),
    decreases s.len(),
{
    vstd::set_lib::lemma_set_subset_finite(s, a);
    vstd::set_lib::lemma_set_subset_finite(s, b);
    if a.is_empty() {
        vstd::set_lib::lemma_len_subset(b, s);
    } else {
        let x = a.choose();
        assert(a.contains(x));
        assert(!b.contains(x));
        lemma_disjoint_subsets_len(a.remove(x), b, s.remove(x));
    }
}

/// Under unique addresses the outbound count is the cardinality of the
/// outbound address set.
pub proof fn lemma_out_count_is_card(s: Seq<Peer>, k: int, excl: Seq<AddrSpec>)
    requires
        sp_unique(s),
        0 <= k <= s.len(),
    ensures
        vis_out_addrs(s.skip(k), excl).finite(),
        outbound_connected_from(s, k, excl) == vis_out_addrs(s.skip(k), excl).len(),
    decreases s.len() - k,
{
    if k == s.len() {
        assert(vis_out_addrs(s.skip(k), excl) =~= Set::<AddrSpec>::empty());
    } else {
        assert(sp_unique(s.skip(k))) by {
            assert forall|x: int, y: int|
                0 <= x < y < s.skip(k).len() implies s.skip(k)[x].info.addr@ != s.skip(
                k,
            )[y].info.addr@ by {
                assert(s.skip(k)[x] == s[k + x]);
                assert(s.skip(k)[y] == s[k + y]);
            }
        }
        lemma_out_count_is_card(s, k + 1, excl);
        let tail = vis_out_addrs(s.skip(k + 1), excl);
        let head = s[k];
        let a0 = head.info.addr@;
        assert forall|a: AddrSpec| #[trigger]
            vis_out_addrs(s.skip(k), excl).contains(a) == (tail.contains(a) || (a == a0
                && head.connected && !addrs_contain(excl, a0) && head.info.is_outbound())) by {
            if vis_out_addrs(s.skip(k), excl).contains(a) {
                let i = choose|i: int|
                    0 <= i < s.skip(k).len() && #[trigger] s.skip(k)[i].info.addr@ == a && s.skip(
                        k,
                    )[i].connected && !addrs_contain(excl, a) && s.skip(k)[i].info.is_outbound();
                if i > 0 {
                    assert(s.skip(k + 1)[i - 1] == s.skip(k)[i]);
                    assert(tail.contains(a));
                } else {
                    assert(s.skip(k)[0] == head);
                }
            }
            if tail.contains(a) {
                let i = choose|i: int|
                    0 <= i < s.skip(k + 1).len() && #[trigger] s.skip(k + 1)[i].info.addr@ == a
                        && s.skip(k + 1)[i].connected && !addrs_contain(excl, a) && s.skip(
                        k + 1,
                    )[i].info.is_outbound();
                assert(s.skip(k)[i + 1] == s.skip(k + 1)[i]);
            }
            if a == a0 && head.connected && !addrs_contain(excl, a0) && head.info.is_outbound() {
                assert(s.skip(k)[0] == head);
            }
        }
        if head.connected && !addrs_contain(excl, a0) && head.info.is_outbound() {
            assert(!tail.contains(a0)) by {
                if tail.contains(a0) {
                    let i = choose|i: int|
                        0 <= i < s.skip(k + 1).len() && #[trigger] s.skip(k + 1)[i].info.addr@
                            == a0 && s.skip(k + 1)[i].connected && !addrs_contain(excl, a0)
                            && s.skip(k + 1)[i].info.is_outbound();
                    assert(s[k + 1 + i].info.addr@ == a0);
                    assert(s[k].info.addr@ != s[k + 1 + i].info.addr@);
                }
            }
            assert(vis_out_addrs(s.skip(k), excl) =~= tail.insert(a0));
        } else {
            assert(vis_out_addrs(s.skip(k), excl) =~= tail);
        }
    }
}

/// Under unique addresses the inbound count is the cardinality of the
/// inbound address set.
pub proof fn lemma_in_count_is_card(s: Seq<Peer>, k: int, excl: Seq<AddrSpec>)
    requires
        sp_unique(s),
        0 <= k <= s.len(),
    ensures
        vis_in_addrs(s.skip(k), excl).finite(),
        inbound_connected_from(s, k, excl) == vis_in_addrs(s.skip(k), excl).len(),
    decreases s.len() - k,
{
    if k == s.len() {
        assert(vis_in_addrs(s.skip(k), excl) =~= Set::<AddrSpec>::empty());
    } else {
        lemma_in_count_is_card(s, k + 1, excl);
        let tail = vis_in_addrs(s.skip(k + 1), excl);
        let head = s[k];
        let a0 = head.info.addr@;
        assert forall|a: AddrSpec| #[trigger]
            vis_in_addrs(s.skip(k), excl).contains(a) == (tail.contains(a) || (a == a0
                && head.connected && !addrs_contain(excl, a0) && head.info.is_inbound())) by {
            if vis_in_addrs(s.skip(k), excl).contains(a) {
                let i = choose|i: int|
                    0 <= i < s.skip(k).len() && #[trigger] s.skip(k)[i].info.addr@ == a && s.skip(
                        k,
                    )[i].connected && !addrs_contain(excl, a) && s.skip(k)[i].info.is_inbound();
                if i > 0 {
                    assert(s.skip(k + 1)[i - 1] == s.skip(k)[i]);
                    assert(tail.contains(a));
                } else {
                    assert(s.skip(k)[0] == head);
                }
            }
            if tail.contains(a) {
                let i = choose|i: int|
                    0 <= i < s.skip(k + 1).len() && #[trigger] s.skip(k + 1)[i].info.addr@ == a
                        && s.skip(k + 1)[i].connected && !addrs_contain(excl, a) && s.skip(
                        k + 1,
                    )[i].info.is_inbound();
                assert(s.skip(k)[i + 1] == s.skip(k + 1)[i]);
            }
            if a == a0 && head.connected && !addrs_contain(excl, a0) && head.info.is_inbound() {
                assert(s.skip(k)[0] == head);
            }
        }
        if head.connected && !addrs_contain(excl, a0) && head.info.is_inbound() {
            assert(!tail.contains(a0)) by {
                if tail.contains(a0) {
                    let i = choose|i: int|
                        0 <= i < s.skip(k + 1).len() && #[trigger] s.skip(k + 1)[i].info.addr@
                            == a0 && s.skip(k + 1)[i].connected && !addrs_contain(excl, a0)
                            && s.skip(k + 1)[i].info.is_inbound();
                    assert(s[k + 1 + i].info.addr@ == a0);
                    assert(s[k].info.addr@ != s[k + 1 + i].info.addr@);
                }
            }
            assert(vis_in_addrs(s.skip(k), excl) =~= tail.insert(a0));
        } else {
            assert(vis_in_addrs(s.skip(k), excl) =~= tail);
        }
    }
}

/// Law: a peer whose workers were stopped is no longer connected, and the
/// very next prune cycle flags it, whatever its counters and whatever the
/// tip stands at — so the cycle's contract removes it from the map.
pub proof fn lemma_stopped_peer_is_pruned(
    p: Peer,
    threshold: u64,
    my_difficulty: u64,
    now: i64,
    now_ms: u64,
)
    requires
        !p.connected,
    ensures
        prune_flagged(p, threshold, my_difficulty, now, now_ms),
{
}

/// Law: over one broadcast, no peer receives the payload more than once;
/// a queue that grew belongs to a peer that was connected when the
/// broadcast began; and peers removed along the way never affect the
/// sends that succeeded — every surviving peer's queue is its old one,
/// with at most one copy of the payload appended.
pub proof fn lemma_broadcast_once(
    pre: Seq<Peer>,
    post: Seq<Peer>,
    m: BroadcastMsg,
    excl: Seq<AddrSpec>,
)
    requires
        sp_unique(pre),
        forall|i: int| 0 <= i < pre.len() ==> bm_processed(pre[i], m, excl, post),
    ensures
        forall|i: int|
            0 <= i < pre.len() && sp_contains(post, pre[i].info.addr@) ==> {
                let p = pre[i];
                let q = post[sp_index_of(post, p.info.addr@)];
                &&& (q.conn.queue.contents() == p.conn.queue.contents()
                    || q.conn.queue.contents() == p.conn.queue.contents().push(bm_msg(m)))
                &&& (q.conn.queue.contents() != p.conn.queue.contents() ==> p.connected)
            },
{
    assert forall|i: int|
        0 <= i < pre.len() && sp_contains(post, pre[i].info.addr@) implies {
        let p = pre[i];
        let q = post[sp_index_of(post, p.info.addr@)];
        &&& (q.conn.queue.contents() == p.conn.queue.contents() || q.conn.queue.contents()
            == p.conn.queue.contents().push(bm_msg(m)))
        &&& (q.conn.queue.contents() != p.conn.queue.contents() ==> p.connected)
    } by {
        let p = pre[i];
        assert(bm_processed(p, m, excl, post));
        if bm_removes(p, m, excl) {
        } else {
            let q = post[sp_index_of(post, p.info.addr@)];
            if bm_counted(p, m, excl) {
                assert(Peer::send_outcome(p, q, bm_msg(m), Ok(())));
            } else {
                assert(q == p);
            }
        }
    }
}

/// The net effect the admit–ban–record sequence has on the persistent
/// store, for one address: whatever stood there before, the address ends
/// under its final banned record.
pub open spec fn ban_sequence(
    m: Map<AddrSpec, PeerData>,
    connected_rec: PeerData,
    banned_rec: PeerData,
    a: AddrSpec,
) -> Map<AddrSpec, PeerData> {
    m.insert(a, connected_rec).insert(
        a,
        PeerData { flags: State::Banned, ..connected_rec },
    ).insert(a, banned_rec)
}

/// Law: admitting an address, banning it and recording the ban, run twice
/// with the same records, leaves the persistent store exactly where one
/// run left it.
pub proof fn lemma_ban_sequence_idempotent(
    m: Map<AddrSpec, PeerData>,
    connected_rec: PeerData,
    banned_rec: PeerData,
    a: AddrSpec,
)
    ensures
        ban_sequence(ban_sequence(m, connected_rec, banned_rec, a), connected_rec, banned_rec, a)
            == ban_sequence(m, connected_rec, banned_rec, a),
{
    let once = ban_sequence(m, connected_rec, banned_rec, a);
    assert(ban_sequence(once, connected_rec, banned_rec, a) =~= once);
}

/// Law: after one prune cycle over a registry whose outbound peers all
/// keep pace and whose connection counts respect the caps, a second cycle
/// run with no intervening input has nothing left to do: the survivors of
/// the first cycle carry no removal flag, underperform nowhere, and their
/// counts only shrank — so the second call removes nothing, by the
/// cycle's own no-op clause.
pub proof fn lemma_second_cycle_removes_nothing(
    s0: Seq<Peer>,
    s1: Seq<Peer>,
    excl: Seq<AddrSpec>,
    max_inbound_count: usize,
    max_outbound_count: usize,
    boost_capability: Capabilities,
    threshold: u64,
    my_difficulty: u64,
    my_height: u64,
    now: i64,
    now_ms: u64,
)
    requires
        sp_unique(s0),
        sp_unique(s1),
        // what the first cycle's contract left: survivors of the old map,
        // value for value, with every flagged visible peer gone
        forall|a: AddrSpec| sp_contains(s1, a) ==> sp_contains(s0, a) && sp_map(s1)[a] == sp_map(
            s0,
        )[a],
        forall|i: int|
            0 <= i < s0.len() && !addrs_contain(excl, s0[i].info.addr@) && prune_flagged(
                s0[i],
                threshold,
                my_difficulty,
                now,
                now_ms,
            ) ==> !sp_contains(s1, s0[i].info.addr@),
        // the cycle's inputs: no underperformers and counts within caps
        forall|i: int|
            0 <= i < s0.len() && !addrs_contain(excl, s0[i].info.addr@) && s0[i].connected
                && s0[i].info.is_outbound() ==> !underperforming(s0[i], my_difficulty, my_height),
        outbound_connected_from(s0, 0, excl) <= max_outbound_count,
        boost_capability.bits == 0 || outbound_connected_from(s0, 0, excl) <= max_outbound_count
            / 2,
        inbound_connected_from(s0, 0, excl) <= max_inbound_count,
    ensures
        clean_noop_input(
            s1,
            excl,
            max_inbound_count,
            max_outbound_count,
            boost_capability,
            threshold,
            my_difficulty,
            my_height,
            now,
            now_ms,
        ),
{
    // survivors carry their old values, so neither flag nor
    // underperformance can appear on them
    assert forall|i: int|
        0 <= i < s1.len() && !addrs_contain(excl, s1[i].info.addr@) implies !prune_flagged(
        s1[i],
        threshold,
        my_difficulty,
        now,
        now_ms,
    ) by {
        let a = s1[i].info.addr@;
        lemma_sp_index_unique(s1, a, i);
        assert(sp_contains(s1, a));
        assert(sp_contains(s0, a) && sp_map(s1)[a] == sp_map(s0)[a]);
        let j = sp_index_of(s0, a);
        assert(0 <= j < s0.len() && s0[j].info.addr@ == a);
        lemma_sp_index_unique(s0, a, j);
        assert(s1[i] == s0[j]);
        if prune_flagged(s1[i], threshold, my_difficulty, now, now_ms) {
            assert(!sp_contains(s1, s0[j].info.addr@));
        }
    }
    assert forall|i: int|
        0 <= i < s1.len() && !addrs_contain(excl, s1[i].info.addr@) && s1[i].connected
            && s1[i].info.is_outbound() implies !underperforming(
        s1[i],
        my_difficulty,
        my_height,
    ) by {
        let a = s1[i].info.addr@;
        lemma_sp_index_unique(s1, a, i);
        assert(sp_contains(s0, a) && sp_map(s1)[a] == sp_map(s0)[a]);
        let j = sp_index_of(s0, a);
        lemma_sp_index_unique(s0, a, j);
        assert(s1[i] == s0[j]);
    }
    // counts only shrink: the survivors' address sets are subsets
    lemma_out_count_is_card(s0, 0, excl);
    lemma_out_count_is_card(s1, 0, excl);
    lemma_in_count_is_card(s0, 0, excl);
    lemma_in_count_is_card(s1, 0, excl);
    assert(s0.skip(0) =~= s0);
    assert(s1.skip(0) =~= s1);
    assert(vis_out_addrs(s1, excl).subset_of(vis_out_addrs(s0, excl))) by {
        assert forall|a: AddrSpec| #[trigger]
            vis_out_addrs(s1, excl).contains(a) implies vis_out_addrs(s0, excl).contains(a) by {
            let i = choose|i: int|
                0 <= i < s1.len() && #[trigger] s1[i].info.addr@ == a && s1[i].connected
                    && !addrs_contain(excl, a) && s1[i].info.is_outbound();
            lemma_sp_index_unique(s1, a, i);
            assert(sp_contains(s0, a) && sp_map(s1)[a] == sp_map(s0)[a]);
            let j = sp_index_of(s0, a);
            lemma_sp_index_unique(s0, a, j);
            assert(s0[j] == s1[i]);
        }
    }
    assert(vis_in_addrs(s1, excl).subset_of(vis_in_addrs(s0, excl))) by {
        assert forall|a: AddrSpec| #[trigger]
            vis_in_addrs(s1, excl).contains(a) implies vis_in_addrs(s0, excl).contains(a) by {
            let i = choose|i: int|
                0 <= i < s1.len() && #[trigger] s1[i].info.addr@ == a && s1[i].connected
                    && !addrs_contain(excl, a) && s1[i].info.is_inbound();
            lemma_sp_index_unique(s1, a, i);
            assert(sp_contains(s0, a) && sp_map(s1)[a] == sp_map(s0)[a]);
            let j = sp_index_of(s0, a);
            lemma_sp_index_unique(s0, a, j);
            assert(s0[j] == s1[i]);
        }
    }
    vstd::set_lib::lemma_len_subset(vis_out_addrs(s1, excl), vis_out_addrs(s0, excl));
    vstd::set_lib::lemma_len_subset(vis_in_addrs(s1, excl), vis_in_addrs(s0, excl));
}

/// Law: a prune cycle with nothing to do leaves the registry unchanged —
/// that is the cycle's own contract — and the unchanged registry again
/// gives the next cycle nothing to do: run twice in succession with no
/// intervening input, the second cycle removes nothing.
pub proof fn lemma_clean_noop_is_stable(
    s0: Seq<Peer>,
    s1: Seq<Peer>,
    excl: Seq<AddrSpec>,
    max_inbound_count: usize,
    max_outbound_count: usize,
    boost_capability: Capabilities,
    threshold: u64,
    my_difficulty: u64,
    my_height: u64,
    now: i64,
    now_ms: u64,
)
    requires
        clean_noop_input(
            s0,
            excl,
            max_inbound_count,
            max_outbound_count,
            boost_capability,
            threshold,
            my_difficulty,
            my_height,
            now,
            now_ms,
        ),
        s1 == s0,
    ensures
        clean_noop_input(
            s1,
            excl,
            max_inbound_count,
            max_outbound_count,
            boost_capability,
            threshold,
            my_difficulty,
            my_height,
            now,
            now_ms,
        ),
{
}

/// The gossip invariant: the store's domain is the original one plus the
/// first `i` gossiped addresses.
pub open spec fn gossip_dom_inv(
    cur: Map<AddrSpec, PeerData>,
    st0: Map<AddrSpec, PeerData>,
    views: Seq<AddrSpec>,
    i: int,
) -> bool {
    forall|a: AddrSpec| #![trigger st0.dom().contains(a)]
        cur.dom().contains(a) == (st0.dom().contains(a) || addrs_contain(views.take(i), a))
}

/// The healthy record addresses of `s` advertising `capab`, in store
/// order.
pub open spec fn healthy_addr_views(s: Seq<PeerData>, capab: Capabilities) -> Seq<AddrSpec> {
    s.filter(|d: PeerData| d.flags == State::Healthy && d.capabilities.spec_contains(capab))
        .map_values(|d: PeerData| d.addr@)
}

} // verus!
