//! The sync runner's pacing decisions and the header-sync bookkeeping:
//! who was asked for which batch, by when an answer is owed, and when a
//! peer has failed often enough to be dropped. The thread that sleeps and
//! fires each pulse is the host's; it hands these functions the time and
//! obeys the actions handed back.

use vstd::prelude::*;

use crate::adapters::ChainAdapter;
use crate::peers::Peers;
use crate::types::{addr_views, addrs_contain, AddrSpec, Capabilities, PeerAddr};

verus! {

/// The macro sync stage the node is in.
#[derive(Clone, Copy, Debug, PartialEq, Eq, Structural)]
pub enum SyncStatus {
    NoSync,
    AwaitingPeers,
    HeaderHashSync,
    HeaderSync,
    BodySync,
    StateSync,
    OrphanSync,
}

/// What one sync-manager pulse answered.
#[derive(Clone, Copy, Debug, PartialEq, Eq, Structural)]
pub enum SyncRequestResponses {
    WaitingForPeers,
    Syncing,
    HasMoreHeadersToApply,
    SyncDone,
}

/// A pulse answer together with the capability hint to boost peer
/// selection with.
#[derive(Clone, Copy, Debug, PartialEq, Eq, Structural)]
pub struct SyncResponse {
    pub response: SyncRequestResponses,
    pub peers_capabilities: Capabilities,
}

/// What the runner's host must do after one pulse.
#[derive(Clone, Copy, Debug, PartialEq, Eq, Structural)]
pub struct TickAction {
    /// How long to sleep before the next pulse, in milliseconds.
    pub sleep_ms: u64,
    /// Whether to compact the chain now: set once a sync finishes.
    pub compact_chain: bool,
    /// For how many seconds to keep servicing pending header and block
    /// requests at one-second cadence after a finished sync.
    pub post_done_service_secs: u64,
}

/// How many outbound peers at our difficulty the bootstrap quarantine
/// waits for.
pub const MIN_PEERS: usize = 3;

/// How long the quarantine waits while awaiting peers, in seconds.
pub const AWAIT_PEERS_WAIT_SECS: u64 = 30;

/// How long the quarantine waits in any other stage, in seconds.
pub const OTHER_WAIT_SECS: u64 = 3;

/// Headers per locator-based batch request.
pub const HEADER_BATCH_SIZE: u64 = 512;

/// How long a header batch answer is awaited, in seconds.
pub const HEADER_TIMEOUT_SECS: i64 = 10;

/// How many timeouts running drop a peer from header sync.
pub const MAX_HEADER_TIMEOUTS: u32 = 3;

/// One outstanding header-batch request.
#[derive(Debug)]
pub struct InFlight {
    pub addr: PeerAddr,
    pub batch_start: u64,
    pub deadline: i64,
}

/// One timeout counter of header sync.
#[derive(Debug)]
pub struct TimeoutCount {
    pub addr: PeerAddr,
    pub count: u32,
}

/// The header-sync bookkeeping: outstanding batches and per-peer timeout
/// counters.
#[derive(Debug)]
pub struct HeaderSyncTracker {
    pub in_flight: Vec<InFlight>,
    pub timeouts: Vec<TimeoutCount>,
}

/// Whether an address holds any outstanding batch in `s`.
pub open spec fn peer_in_flight(s: Seq<InFlight>, a: AddrSpec) -> bool {
    exists|i: int| 0 <= i < s.len() && s[i].addr@ == a
}

/// Whether `s` records a counter at or past the drop threshold for `a`.
pub open spec fn dropped_entry(s: Seq<TimeoutCount>, a: AddrSpec) -> bool {
    exists|j: int|
        0 <= j < s.len() && #[trigger] s[j].addr@ == a && s[j].count >= MAX_HEADER_TIMEOUTS
}

/// The recorded timeout count of an address, 0 when none.
pub open spec fn spec_timeout_count(s: Seq<TimeoutCount>, a: AddrSpec) -> u32
    decreases s.len(),
{
    if s.len() == 0 {
        0
    } else if s[0].addr@ == a {
        s[0].count
    } else {
        spec_timeout_count(s.drop_first(), a)
    }
}

impl HeaderSyncTracker {
    pub fn new() -> (t: HeaderSyncTracker)
        ensures
            t.in_flight@.len() == 0,
            t.timeouts@.len() == 0,
    {
        HeaderSyncTracker { in_flight: Vec::new(), timeouts: Vec::new() }
    }

    /// The recorded timeout count of an address.
    pub fn timeout_count(&self, addr: &PeerAddr) -> (r: u32)
        ensures
            r == spec_timeout_count(self.timeouts@, addr@),
    {
        let mut i: usize = 0;
        proof {
            assert(self.timeouts@.skip(0int) =~= self.timeouts@);
        }
        while i < self.timeouts.len()
            invariant
                0 <= i <= self.timeouts@.len(),
                spec_timeout_count(self.timeouts@, addr@) == spec_timeout_count(
                    self.timeouts@.skip(i as int),
                    addr@,
                ),
            decreases self.timeouts@.len() - i,
        {
            proof {
                assert(self.timeouts@.skip(i as int).drop_first() =~= self.timeouts@.skip(
                    i + 1int,
                ));
                assert(self.timeouts@.skip(i as int)[0] == self.timeouts@[i as int]);
            }
            if &self.timeouts[i].addr == addr {
                return self.timeouts[i].count;
            }
            i = i + 1;
        }
        proof {
            assert(self.timeouts@.skip(self.timeouts@.len() as int) =~= Seq::<
                TimeoutCount,
            >::empty());
        }
        0
    }

    /// Whether header sync may not ask this peer: it already holds an
    /// outstanding batch, or it timed out too often.
    pub open spec fn spec_disqualified(self, a: AddrSpec) -> bool {
        peer_in_flight(self.in_flight@, a) || spec_timeout_count(self.timeouts@, a)
            >= MAX_HEADER_TIMEOUTS
    }

    /// Issue a batch request: the first candidate with no batch outstanding
    /// and not already dropped for timeouts gets it, and the request is
    /// recorded with its deadline. `None` exactly when every candidate is
    /// disqualified.
    pub fn request_batch(&mut self, candidates: &Vec<PeerAddr>, batch_start: u64, now: i64) -> (r:
        Option<PeerAddr>)
        ensures
            final(self).timeouts@ == old(self).timeouts@,
            match r {
                Some(a) => {
                    &&& !old(self).spec_disqualified(a@)
                    &&& (exists|i: int|
                        0 <= i < candidates@.len() && #[trigger] candidates@[i]@ == a@ && (
                        forall|j: int|
                            0 <= j < i ==> old(self).spec_disqualified(
                                #[trigger] candidates@[j]@,
                            )))
                    &&& final(self).in_flight@.len() == old(self).in_flight@.len() + 1
                    &&& final(self).in_flight@.last().addr@ == a@
                    &&& final(self).in_flight@.last().batch_start == batch_start
                    &&& final(self).in_flight@.last().deadline == spec_deadline(now)
                    &&& forall|i: int|
                        0 <= i < old(self).in_flight@.len() ==> final(self).in_flight@[i] == old(
                            self,
                        ).in_flight@[i]
                },
                None => *final(self) == *old(self) && (forall|i: int|
                    0 <= i < candidates@.len() ==> old(self).spec_disqualified(
                        #[trigger] candidates@[i]@,
                    )),
            },
    {
        let mut i: usize = 0;
        while i < candidates.len()
            invariant
                old(self) == self,
                0 <= i <= candidates@.len(),
                forall|j: int|
                    0 <= j < i ==> old(self).spec_disqualified(#[trigger] candidates@[j]@),
            decreases candidates@.len() - i,
        {
            let cand = &candidates[i];
            let busy = self.peer_has_in_flight(cand);
            let dropped = self.timeout_count(cand) >= MAX_HEADER_TIMEOUTS;
            if !busy && !dropped {
                let a = cand.clone();
                let deadline = deadline_for(now);
                self.in_flight.push(
                    InFlight { addr: a.clone(), batch_start, deadline },
                );
                proof {
                    assert(candidates@[i as int]@ == a@);
                }
                return Some(a);
            }
            i = i + 1;
        }
        None
    }

    /// Whether an address holds an outstanding batch.
    pub fn peer_has_in_flight(&self, addr: &PeerAddr) -> (r: bool)
        ensures
            r == peer_in_flight(self.in_flight@, addr@),
    {
        let mut i: usize = 0;
        while i < self.in_flight.len()
            invariant
                0 <= i <= self.in_flight@.len(),
                forall|j: int| 0 <= j < i ==> self.in_flight@[j].addr@ != addr@,
            decreases self.in_flight@.len() - i,
        {
            if &self.in_flight[i].addr == addr {
                return true;
            }
            i = i + 1;
        }
        false
    }

    /// A batch answer arrived: its outstanding entries are settled and the
    /// peer's timeout counter forgiven.
    pub fn batch_received(&mut self, addr: &PeerAddr, batch_start: u64)
        ensures
            final(self).in_flight@ == old(self).in_flight@.filter(
                |f: InFlight| !(f.addr@ == addr@ && f.batch_start == batch_start),
            ),
            final(self).timeouts@ == old(self).timeouts@.filter(
                |t: TimeoutCount| t.addr@ != addr@,
            ),
    {
        let ghost pre = self.in_flight@;
        let mut kept: Vec<InFlight> = Vec::new();
        let mut i: usize = 0;
        proof {
            assert(pre.take(0int).filter(
                |f: InFlight| !(f.addr@ == addr@ && f.batch_start == batch_start),
            ) =~= Seq::<InFlight>::empty());
        }
        while i < self.in_flight.len()
            invariant
                self.in_flight@ == pre,
                0 <= i <= pre.len(),
                kept@ == pre.take(i as int).filter(
                    |f: InFlight| !(f.addr@ == addr@ && f.batch_start == batch_start),
                ),
            decreases pre.len() - i,
        {
            let f = &self.in_flight[i];
            proof {
                assert(pre.take(i + 1int).drop_last() =~= pre.take(i as int));
                reveal_with_fuel(Seq::filter, 2);
            }
            if !(&f.addr == addr && f.batch_start == batch_start) {
                kept.push(InFlight { addr: f.addr.clone(), batch_start: f.batch_start, deadline: f.deadline });
            }
            i = i + 1;
        }
        proof {
            assert(pre.take(pre.len() as int) =~= pre);
        }
        self.in_flight = kept;

        let ghost pret = self.timeouts@;
        let mut keptt: Vec<TimeoutCount> = Vec::new();
        let mut i: usize = 0;
        proof {
            assert(pret.take(0int).filter(|t: TimeoutCount| t.addr@ != addr@) =~= Seq::<
                TimeoutCount,
            >::empty());
        }
        while i < self.timeouts.len()
            invariant
                self.timeouts@ == pret,
                0 <= i <= pret.len(),
                keptt@ == pret.take(i as int).filter(|t: TimeoutCount| t.addr@ != addr@),
            decreases pret.len() - i,
        {
            let t = &self.timeouts[i];
            proof {
                assert(pret.take(i + 1int).drop_last() =~= pret.take(i as int));
                reveal_with_fuel(Seq::filter, 2);
            }
            if !(&t.addr == addr) {
                keptt.push(TimeoutCount { addr: t.addr.clone(), count: t.count });
            }
            i = i + 1;
        }
        proof {
            assert(pret.take(pret.len() as int) =~= pret);
        }
        self.timeouts = keptt;
    }

    /// Sweep the deadlines at `now`: every expired batch leaves the
    /// outstanding list and is handed back for re-issue, and each expiry
    /// raises its peer's timeout counter by one.
    pub fn check_timeouts(&mut self, now: i64) -> (expired: Vec<InFlight>)
        ensures
            final(self).in_flight@ == old(self).in_flight@.filter(
                |f: InFlight| f.deadline >= now,
            ),
            expired@ == old(self).in_flight@.filter(|f: InFlight| f.deadline < now),
            // each expiry raises its peer's counter
            forall|k: int|
                0 <= k < expired@.len() ==> spec_timeout_count(
                    final(self).timeouts@,
                    expired@[k].addr@,
                ) > spec_timeout_count(old(self).timeouts@, expired@[k].addr@)
                    || spec_timeout_count(old(self).timeouts@, expired@[k].addr@) == u32::MAX,
            // a peer with no expiry keeps its counter as it was
            forall|a: AddrSpec|
                !peer_in_flight(expired@, a) ==> spec_timeout_count(final(self).timeouts@, a)
                    == spec_timeout_count(old(self).timeouts@, a),
    {
        let ghost pre = self.in_flight@;
        let mut kept: Vec<InFlight> = Vec::new();
        let mut expired: Vec<InFlight> = Vec::new();
        let mut i: usize = 0;
        proof {
            assert(pre.take(0int).filter(|f: InFlight| f.deadline >= now) =~= Seq::<
                InFlight,
            >::empty());
            assert(pre.take(0int).filter(|f: InFlight| f.deadline < now) =~= Seq::<
                InFlight,
            >::empty());
        }
        while i < self.in_flight.len()
            invariant
                self.in_flight@ == pre,
                0 <= i <= pre.len(),
                kept@ == pre.take(i as int).filter(|f: InFlight| f.deadline >= now),
                expired@ == pre.take(i as int).filter(|f: InFlight| f.deadline < now),
            decreases pre.len() - i,
        {
            let f = &self.in_flight[i];
            proof {
                assert(pre.take(i + 1int).drop_last() =~= pre.take(i as int));
                reveal_with_fuel(Seq::filter, 2);
            }
            let copy = InFlight { addr: f.addr.clone(), batch_start: f.batch_start, deadline: f.deadline };
            if f.deadline >= now {
                kept.push(copy);
            } else {
                expired.push(copy);
            }
            i = i + 1;
        }
        proof {
            assert(pre.take(pre.len() as int) =~= pre);
        }
        self.in_flight = kept;
        let mut k: usize = 0;
        while k < expired.len()
            invariant
                0 <= k <= expired@.len(),
                expired@ == pre.filter(|f: InFlight| f.deadline < now),
                forall|k2: int|
                    0 <= k2 < k ==> spec_timeout_count(self.timeouts@, expired@[k2].addr@)
                        > spec_timeout_count(old(self).timeouts@, expired@[k2].addr@)
                        || spec_timeout_count(old(self).timeouts@, expired@[k2].addr@)
                        == u32::MAX,
                forall|a: AddrSpec|
                    spec_timeout_count(self.timeouts@, a) >= spec_timeout_count(
                        old(self).timeouts@,
                        a,
                    ),
                forall|a: AddrSpec|
                    !peer_in_flight(expired@, a) ==> spec_timeout_count(self.timeouts@, a)
                        == spec_timeout_count(old(self).timeouts@, a),
                self.in_flight@ == pre.filter(|f: InFlight| f.deadline >= now),
            decreases expired@.len() - k,
        {
            let a = expired[k].addr.clone();
            let ghost mid = self.timeouts@;
            self.raise_timeout(&a);
            proof {
                assert forall|b: AddrSpec|
                    !peer_in_flight(expired@, b) implies spec_timeout_count(self.timeouts@, b)
                    == spec_timeout_count(old(self).timeouts@, b) by {
                    assert(expired@[k as int].addr@ == a@);
                    if b == a@ {
                        assert(peer_in_flight(expired@, b));
                    }
                    assert(spec_timeout_count(self.timeouts@, b) == spec_timeout_count(mid, b));
                }
            }
            k = k + 1;
        }
        expired
    }

    /// Raise one address's timeout counter, saturating.
    fn raise_timeout(&mut self, addr: &PeerAddr)
        ensures
            final(self).in_flight@ == old(self).in_flight@,
            spec_timeout_count(final(self).timeouts@, addr@) > spec_timeout_count(
                old(self).timeouts@,
                addr@,
            ) || spec_timeout_count(old(self).timeouts@, addr@) == u32::MAX,
            forall|a: AddrSpec|
                spec_timeout_count(final(self).timeouts@, a) >= spec_timeout_count(
                    old(self).timeouts@,
                    a,
                ),
            forall|a: AddrSpec|
                a != addr@ ==> spec_timeout_count(final(self).timeouts@, a) == spec_timeout_count(
                    old(self).timeouts@,
                    a,
                ),
    {
        let ghost pre = self.timeouts@;
        let mut i: usize = 0;
        while i < self.timeouts.len()
            invariant
                self.timeouts@ == pre,
                pre == old(self).timeouts@,
                self.in_flight@ == old(self).in_flight@,
                0 <= i <= pre.len(),
                forall|j: int| 0 <= j < i ==> pre[j].addr@ != addr@,
            decreases pre.len() - i,
        {
            if &self.timeouts[i].addr == addr {
                let c = self.timeouts[i].count;
                let c2 = if c == u32::MAX {
                    c
                } else {
                    c + 1
                };
                let a2 = self.timeouts[i].addr.clone();
                proof {
                    assert(a2 == pre[i as int].addr);
                    assert(pre[i as int].addr@ == addr@);
                }
                self.timeouts.set(i, TimeoutCount { addr: a2, count: c2 });
                proof {
                    assert(self.timeouts@[i as int].addr == pre[i as int].addr);
                    assert(self.timeouts@ == pre.update(
                        i as int,
                        (TimeoutCount { addr: self.timeouts@[i as int].addr, count: c2 }),
                    ));
                    assert(c2 >= pre[i as int].count);
                    lemma_timeout_count_update(pre, self.timeouts@, i as int, c2);
                    assert(spec_timeout_count(self.timeouts@, addr@) == c2);
                    assert(spec_timeout_count(pre, addr@) == pre[i as int].count);
                }
                return ;
            }
            i = i + 1;
        }
        self.timeouts.push(TimeoutCount { addr: addr.clone(), count: 1 });
        proof {
            lemma_timeout_count_append(pre, self.timeouts@, addr@);
        }
    }

    /// The peers that timed out too often and must be dropped.
    /// The peers that timed out too often: exactly the addresses whose
    /// counter reached the drop threshold, no more and no fewer.
    pub fn peers_to_drop(&self) -> (r: Vec<PeerAddr>)
        ensures
            forall|k: int| #![trigger r@[k]]
                0 <= k < r@.len() ==> dropped_entry(self.timeouts@, r@[k]@),
            forall|j: int|
                0 <= j < self.timeouts@.len() && self.timeouts@[j].count >= MAX_HEADER_TIMEOUTS
                    ==> addrs_contain(addr_views(r@), #[trigger] self.timeouts@[j].addr@),
    {
        let mut r: Vec<PeerAddr> = Vec::new();
        let mut i: usize = 0;
        while i < self.timeouts.len()
            invariant
                0 <= i <= self.timeouts@.len(),
                forall|k: int| #![trigger r@[k]]
                    0 <= k < r@.len() ==> dropped_entry(self.timeouts@, r@[k]@),
                forall|j: int|
                    0 <= j < i && self.timeouts@[j].count >= MAX_HEADER_TIMEOUTS ==> addrs_contain(
                        addr_views(r@),
                        #[trigger] self.timeouts@[j].addr@,
                    ),
            decreases self.timeouts@.len() - i,
        {
            let t = &self.timeouts[i];
            if t.count >= MAX_HEADER_TIMEOUTS {
                let ghost pre = r@;
                r.push(t.addr.clone());
                proof {
                    assert(addr_views(r@) =~= addr_views(pre).push(self.timeouts@[i as int].addr@));
                    assert forall|k: int| #![trigger r@[k]]
                        0 <= k < r@.len() implies dropped_entry(self.timeouts@, r@[k]@) by {
                        if k < pre.len() {
                            assert(r@[k] == pre[k]);
                            assert(dropped_entry(self.timeouts@, pre[k]@));
                        } else {
                            assert(r@[k]@ == self.timeouts@[i as int].addr@);
                            assert(self.timeouts@[i as int].count >= MAX_HEADER_TIMEOUTS);
                        }
                    }
                    assert forall|j: int|
                        0 <= j < i + 1 && self.timeouts@[j].count >= MAX_HEADER_TIMEOUTS
                            implies addrs_contain(
                        addr_views(r@),
                        #[trigger] self.timeouts@[j].addr@,
                    ) by {
                        if j < i {
                            let k = choose|k: int|
                                0 <= k < addr_views(pre).len() && #[trigger] addr_views(pre)[k]
                                    == self.timeouts@[j].addr@;
                            assert(addr_views(r@)[k] == self.timeouts@[j].addr@);
                        } else {
                            assert(addr_views(r@).last() == self.timeouts@[i as int].addr@);
                        }
                    }
                }
            }
            i = i + 1;
        }
        r
    }
}

/// The deadline a request issued at `now` is owed by.
pub open spec fn spec_deadline(now: i64) -> i64 {
    if now + HEADER_TIMEOUT_SECS <= i64::MAX {
        (now + HEADER_TIMEOUT_SECS) as i64
    } else {
        i64::MAX
    }
}

/// The deadline, saturating at the end of time.
fn deadline_for(now: i64) -> (r: i64)
    ensures
        r == spec_deadline(now),
{
    if now <= i64::MAX - HEADER_TIMEOUT_SECS {
        now + HEADER_TIMEOUT_SECS
    } else {
        i64::MAX
    }
}

/// Replacing the entry at `i` with a higher count raises that address's
/// count and lowers no other.
proof fn lemma_timeout_count_update(pre: Seq<TimeoutCount>, post: Seq<TimeoutCount>, i: int, c2: u32)
    requires
        0 <= i < pre.len(),
        post == pre.update(i, (TimeoutCount { addr: post[i].addr, count: c2 })),
        post[i].addr@ == pre[i].addr@,
        c2 >= pre[i].count,
        forall|j: int| 0 <= j < i ==> pre[j].addr@ != pre[i].addr@,
    ensures
        spec_timeout_count(post, pre[i].addr@) == c2,
        spec_timeout_count(pre, pre[i].addr@) == pre[i].count,
        forall|a: AddrSpec| spec_timeout_count(post, a) >= spec_timeout_count(pre, a),
        forall|a: AddrSpec|
            a != pre[i].addr@ ==> spec_timeout_count(post, a) == spec_timeout_count(pre, a),
    decreases pre.len(),
{
    if i == 0 {
        assert forall|a: AddrSpec|
            spec_timeout_count(post, a) >= spec_timeout_count(pre, a) && (a != pre[0].addr@
                ==> spec_timeout_count(post, a) == spec_timeout_count(pre, a)) by {
            if a == pre[0].addr@ {
            } else {
                assert(post.drop_first() =~= pre.drop_first());
                assert(post[0].addr@ == pre[0].addr@);
            }
        }
    } else {
        let prer = pre.drop_first();
        let postr = post.drop_first();
        assert(postr =~= prer.update(i - 1, (TimeoutCount { addr: post[i].addr, count: c2 })));
        lemma_timeout_count_update(prer, postr, i - 1, c2);
        assert(prer[i - 1].addr@ == pre[i].addr@);
        assert(pre[0].addr@ != pre[i].addr@);
        assert forall|a: AddrSpec|
            spec_timeout_count(post, a) >= spec_timeout_count(pre, a) && (a != pre[i].addr@
                ==> spec_timeout_count(post, a) == spec_timeout_count(pre, a)) by {
            if a != post[0].addr@ {
                assert(spec_timeout_count(post, a) == spec_timeout_count(postr, a));
                assert(spec_timeout_count(pre, a) == spec_timeout_count(prer, a));
            } else {
                assert(post[0] == pre[0]);
            }
        }
    }
}

/// Appending a fresh entry for an unrecorded address gives it count 1 and
/// lowers no other.
proof fn lemma_timeout_count_append(pre: Seq<TimeoutCount>, post: Seq<TimeoutCount>, a: AddrSpec)
    requires
        post.len() == pre.len() + 1,
        forall|j: int| 0 <= j < pre.len() ==> post[j] == pre[j],
        post.last().addr@ == a,
        post.last().count == 1,
        forall|j: int| 0 <= j < pre.len() ==> pre[j].addr@ != a,
    ensures
        spec_timeout_count(pre, a) == 0,
        spec_timeout_count(post, a) == 1,
        forall|b: AddrSpec| spec_timeout_count(post, b) >= spec_timeout_count(pre, b),
        forall|b: AddrSpec|
            b != a ==> spec_timeout_count(post, b) == spec_timeout_count(pre, b),
    decreases pre.len(),
{
    if pre.len() == 0 {
        assert(post[0] == post.last());
        assert(post[0].addr@ == a);
        assert forall|b: AddrSpec|
            spec_timeout_count(post, b) >= spec_timeout_count(pre, b) && (b != a
                ==> spec_timeout_count(post, b) == spec_timeout_count(pre, b)) by {
            assert(spec_timeout_count(pre, b) == 0);
            if b != a {
                assert(post.drop_first() =~= Seq::<TimeoutCount>::empty());
                assert(spec_timeout_count(post, b) == spec_timeout_count(
                    post.drop_first(),
                    b,
                ));
                assert(spec_timeout_count(post.drop_first(), b) == 0);
            } else {
                assert(spec_timeout_count(post, b) == post[0].count);
            }
        }
    } else {
        let prer = pre.drop_first();
        let postr = post.drop_first();
        assert(postr.len() == prer.len() + 1);
        assert(forall|j: int| 0 <= j < prer.len() ==> postr[j] == prer[j]);
        assert(postr.last() == post.last());
        lemma_timeout_count_append(prer, postr, a);
        assert(post[0] == pre[0]);
        assert(pre[0].addr@ != a);
        assert forall|b: AddrSpec|
            spec_timeout_count(post, b) >= spec_timeout_count(pre, b) && (b != a
                ==> spec_timeout_count(post, b) == spec_timeout_count(pre, b)) by {
            if b == post[0].addr@ {
                assert(spec_timeout_count(post, b) == post[0].count);
                assert(spec_timeout_count(pre, b) == pre[0].count);
            } else {
                assert(spec_timeout_count(post, b) == spec_timeout_count(postr, b));
                assert(spec_timeout_count(pre, b) == spec_timeout_count(prer, b));
            }
        }
    }
}

/// One pulse's quarantine decision: the runner leaves the wait as soon as
/// enough outbound peers at or above our difficulty are connected, or
/// once the stage's patience is spent, or when the node stops.
pub fn wait_for_min_peers_done(
    status: SyncStatus,
    stopped: bool,
    ready_peers: usize,
    waited_secs: u64,
) -> (done: bool)
    ensures
        done == (stopped || ready_peers >= MIN_PEERS || waited_secs > wait_budget_secs(status)),
{
    let wait_secs = if matches!(status, SyncStatus::AwaitingPeers) {
        AWAIT_PEERS_WAIT_SECS
    } else {
        OTHER_WAIT_SECS
    };
    stopped || ready_peers >= MIN_PEERS || waited_secs > wait_secs
}

/// The patience of the quarantine, by stage.
pub open spec fn wait_budget_secs(status: SyncStatus) -> u64 {
    if status == SyncStatus::AwaitingPeers {
        AWAIT_PEERS_WAIT_SECS
    } else {
        OTHER_WAIT_SECS
    }
}

/// The sync runner: the state one pulse reads and writes.
#[derive(Debug)]
pub struct SyncRunner<A> {
    pub sync_state: SyncStatus,
    pub peers: Peers<A>,
    pub stopped: bool,
    pub header_tracker: HeaderSyncTracker,
}

impl<A: ChainAdapter> SyncRunner<A> {
    pub open spec fn wf(self) -> bool {
        self.peers.wf()
    }

    pub fn new(peers: Peers<A>) -> (r: SyncRunner<A>)
        requires
            peers.wf(),
        ensures
            r.wf(),
            r.sync_state == SyncStatus::AwaitingPeers,
            !r.stopped,
            r.peers == peers,
            r.header_tracker.in_flight@.len() == 0,
            r.header_tracker.timeouts@.len() == 0,
    {
        SyncRunner {
            sync_state: SyncStatus::AwaitingPeers,
            peers,
            stopped: false,
            header_tracker: HeaderSyncTracker::new(),
        }
    }

    /// How many visible connected outbound peers report at least
    /// `head_total_difficulty` of real work.
    pub fn count_ready_peers(&self, head_total_difficulty: u64) -> (r: usize)
        requires
            self.wf(),
        ensures
            r == crate::peers::lites_of(
                self.peers.peers@,
                self.peers.excluded_views(),
            ).filter(|l: crate::peers::PeerLite| l.info.is_outbound()).filter(
                |l: crate::peers::PeerLite| l.info.total_difficulty >= spec_ready_floor(
                    head_total_difficulty,
                ),
            ).filter(|l: crate::peers::PeerLite| l.connected).len(),
    {
        let floor = if head_total_difficulty == 0 {
            1
        } else {
            head_total_difficulty
        };
        self.peers.iter().outbound().with_difficulty(floor).connected().count()
    }

    /// One quarantine check at `waited_secs` into the wait.
    pub fn wait_step(&self, head_total_difficulty: u64, waited_secs: u64) -> (done: bool)
        requires
            self.wf(),
        ensures
            done == (self.stopped || crate::peers::lites_of(
                self.peers.peers@,
                self.peers.excluded_views(),
            ).filter(|l: crate::peers::PeerLite| l.info.is_outbound()).filter(
                |l: crate::peers::PeerLite| l.info.total_difficulty >= spec_ready_floor(
                    head_total_difficulty,
                ),
            ).filter(|l: crate::peers::PeerLite| l.connected).len() >= MIN_PEERS || waited_secs
                > wait_budget_secs(self.sync_state)),
    {
        let ready = self.count_ready_peers(head_total_difficulty);
        wait_for_min_peers_done(self.sync_state, self.stopped, ready, waited_secs)
    }

    /// Apply one pulse answer: the waiting answer re-enters the quarantine
    /// and publishes the boost hint; a syncing answer only publishes it; a
    /// drained-headers answer shortens the next sleep; a finished sync
    /// clears the hint, compacts the chain and keeps servicing requests
    /// for a while.
    pub fn sync_tick(&mut self, response: SyncResponse, now: i64) -> (act: TickAction)
        requires
            old(self).wf(),
        ensures
            final(self).wf(),
            *final(self) == (SyncRunner {
                sync_state: final(self).sync_state,
                peers: final(self).peers,
                ..*old(self)
            }),
            final(self).peers == (Peers {
                boost_peers_capabilities: final(self).peers.boost_peers_capabilities,
                ..old(self).peers
            }),
            match response.response {
                SyncRequestResponses::WaitingForPeers => {
                    &&& final(self).sync_state == SyncStatus::AwaitingPeers
                    &&& final(self).peers.boost_peers_capabilities.capabilities == (if old(
                        self,
                    ).peers.boost_peers_capabilities.capabilities != response.peers_capabilities {
                        response.peers_capabilities
                    } else {
                        old(self).peers.boost_peers_capabilities.capabilities
                    })
                    &&& act == (TickAction {
                        sleep_ms: 1000,
                        compact_chain: false,
                        post_done_service_secs: 0,
                    })
                },
                SyncRequestResponses::Syncing => {
                    &&& final(self).sync_state == old(self).sync_state
                    &&& final(self).peers.boost_peers_capabilities.capabilities == (if old(
                        self,
                    ).peers.boost_peers_capabilities.capabilities != response.peers_capabilities {
                        response.peers_capabilities
                    } else {
                        old(self).peers.boost_peers_capabilities.capabilities
                    })
                    &&& act == (TickAction {
                        sleep_ms: 1000,
                        compact_chain: false,
                        post_done_service_secs: 0,
                    })
                },
                SyncRequestResponses::HasMoreHeadersToApply => {
                    &&& *final(self) == *old(self)
                    &&& act == (TickAction {
                        sleep_ms: 100,
                        compact_chain: false,
                        post_done_service_secs: 0,
                    })
                },
                SyncRequestResponses::SyncDone => {
                    &&& final(self).sync_state == SyncStatus::NoSync
                    &&& final(self).peers.boost_peers_capabilities.capabilities.bits == 0
                    &&& act == (TickAction {
                        sleep_ms: 1000,
                        compact_chain: true,
                        post_done_service_secs: 20,
                    })
                },
            },
    {
        match response.response {
            SyncRequestResponses::WaitingForPeers => {
                self.sync_state = SyncStatus::AwaitingPeers;
                self.peers.set_boost_peers_capabilities_at(response.peers_capabilities, now);
                TickAction { sleep_ms: 1000, compact_chain: false, post_done_service_secs: 0 }
            },
            SyncRequestResponses::Syncing => {
                self.peers.set_boost_peers_capabilities_at(response.peers_capabilities, now);
                TickAction { sleep_ms: 1000, compact_chain: false, post_done_service_secs: 0 }
            },
            SyncRequestResponses::HasMoreHeadersToApply => {
                TickAction { sleep_ms: 100, compact_chain: false, post_done_service_secs: 0 }
            },
            SyncRequestResponses::SyncDone => {
                self.sync_state = SyncStatus::NoSync;
                self.peers.set_boost_peers_capabilities_at(Capabilities::unknown(), now);
                TickAction { sleep_ms: 1000, compact_chain: true, post_done_service_secs: 20 }
            },
        }
    }
}

/// The difficulty floor a ready peer must report: our head's, and in any
/// case real work.
pub open spec fn spec_ready_floor(head_total_difficulty: u64) -> u64 {
    if head_total_difficulty == 0 {
        1
    } else {
        head_total_difficulty
    }
}

} // verus!
