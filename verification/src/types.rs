//! Core data model: peer addresses, capability bits, peer identity and the
//! persistent peer record, together with the error taxonomy of the
//! connection layer.

use vstd::prelude::*;

verus! {

/// Direction of a peer connection, from our point of view.
#[derive(Clone, Copy, Debug, PartialEq, Eq, Structural)]
pub enum Direction {
    Inbound,
    Outbound,
}

/// Persistent state of a peer record in the store.
#[derive(Clone, Copy, Debug, PartialEq, Eq, Structural)]
pub enum State {
    Healthy,
    Banned,
    Defunct,
}

/// Why a peer was banned.
#[derive(Clone, Copy, Debug, PartialEq, Eq, Structural)]
pub enum ReasonForBan {
    NoReason,
    BadBlock,
    BadCompactBlock,
    BadBlockHeader,
    BadHandshake,
    ManualBan,
}

/// Capability bitset advertised by each peer, declaring which protocol
/// features it supports.
#[derive(Clone, Copy, Debug, PartialEq, Eq, Structural)]
pub struct Capabilities {
    pub bits: u32,
}

impl Capabilities {
    /// The empty capability set; doubles as "no boost hint".
    pub fn unknown() -> (c: Capabilities)
        ensures
            c.bits == 0,
    {
        Capabilities { bits: 0 }
    }

    /// What it means for this set to include every bit of `other`.
    pub open spec fn spec_contains(self, other: Capabilities) -> bool {
        self.bits & other.bits == other.bits
    }

    /// Whether this set includes every capability bit of `other`.
    pub fn contains(&self, other: Capabilities) -> (r: bool)
        ensures
            r == self.spec_contains(other),
    {
        self.bits & other.bits == other.bits
    }
}

/// An IP address, either a plain IPv4 value or the two 64-bit halves of an
/// IPv6 value.
#[derive(Clone, Copy, Debug, PartialEq, Eq, Structural)]
pub enum IpAddress {
    V4 { octets: u32 },
    V6 { hi: u64, lo: u64 },
}

/// The multiplier between the two 32-bit halves of an IPv6 low quad-word.
pub const V6_LOW_SPLIT: u64 = 0x1_0000_0000;

impl IpAddress {
    /// An IPv6 value of the form `::ffff:a.b.c.d`, which stands for the
    /// IPv4 address `a.b.c.d`.
    pub open spec fn spec_is_v4_mapped(self) -> bool {
        match self {
            IpAddress::V4 { .. } => false,
            IpAddress::V6 { hi, lo } => hi == 0 && lo / 0x1_0000_0000 == 0xFFFF,
        }
    }

    /// The address with IPv4-mapped IPv6 collapsed to plain IPv4; other
    /// addresses are unchanged.
    pub open spec fn spec_normalized(self) -> IpAddress {
        match self {
            IpAddress::V4 { .. } => self,
            IpAddress::V6 { hi, lo } => {
                if self.spec_is_v4_mapped() {
                    IpAddress::V4 { octets: (lo % 0x1_0000_0000) as u32 }
                } else {
                    self
                }
            },
        }
    }

    /// Collapse an IPv4-mapped IPv6 address to its IPv4 form, so that the
    /// same host is known under one key.
    pub fn normalized(&self) -> (r: IpAddress)
        ensures
            r == self.spec_normalized(),
    {
        match self {
            IpAddress::V4 { octets } => IpAddress::V4 { octets: *octets },
            IpAddress::V6 { hi, lo } => {
                if *hi == 0 && *lo / V6_LOW_SPLIT == 0xFFFF {
                    IpAddress::V4 { octets: (*lo % V6_LOW_SPLIT) as u32 }
                } else {
                    IpAddress::V6 { hi: *hi, lo: *lo }
                }
            },
        }
    }

    /// The IPv4 loopback net `127.0.0.0/8` and the IPv6 loopback `::1`.
    pub open spec fn spec_is_loopback(self) -> bool {
        match self {
            IpAddress::V4 { octets } => octets / 0x1_00_00_00 == 127,
            IpAddress::V6 { hi, lo } => hi == 0 && lo == 1,
        }
    }

    /// Whether the address is a loopback address.
    pub fn is_loopback(&self) -> (r: bool)
        ensures
            r == self.spec_is_loopback(),
    {
        match self {
            IpAddress::V4 { octets } => *octets / 0x1_00_00_00 == 127,
            IpAddress::V6 { hi, lo } => *hi == 0 && *lo == 1,
        }
    }
}

/// A peer address: an IP socket address or an onion host identifier.
#[derive(Debug)]
pub enum PeerAddr {
    Ip { ip: IpAddress, port: u16 },
    Onion { host: String },
}

/// The mathematical value of a [`PeerAddr`]: onion hosts are compared as
/// character sequences, IP addresses by their numeric parts.
pub enum AddrSpec {
    Ip { ip: IpAddress, port: u16 },
    Onion { host: Seq<char> },
}

impl View for PeerAddr {
    type V = AddrSpec;

    open spec fn view(&self) -> AddrSpec {
        match self {
            PeerAddr::Ip { ip, port } => AddrSpec::Ip { ip: *ip, port: *port },
            PeerAddr::Onion { host } => AddrSpec::Onion { host: host@ },
        }
    }
}

impl PeerAddr {
    /// Whether this address is an IP loopback address; onion addresses
    /// never are.
    pub open spec fn spec_is_loopback(self) -> bool {
        match self {
            PeerAddr::Ip { ip, .. } => ip.spec_is_loopback(),
            PeerAddr::Onion { .. } => false,
        }
    }

    /// Whether the address is a loopback IP address.
    pub fn is_loopback(&self) -> (r: bool)
        ensures
            r == self.spec_is_loopback(),
    {
        match self {
            PeerAddr::Ip { ip, .. } => ip.is_loopback(),
            PeerAddr::Onion { .. } => false,
        }
    }
}

impl Clone for PeerAddr {
    fn clone(&self) -> (r: Self)
        ensures
            r == *self,
    {
        match self {
            PeerAddr::Ip { ip, port } => PeerAddr::Ip { ip: *ip, port: *port },
            PeerAddr::Onion { host } => PeerAddr::Onion { host: host.clone() },
        }
    }
}

impl PartialEq for PeerAddr {
    /// Equality is case-sensitive string equality for onion hosts, numeric
    /// equality for IP addresses.
    fn eq(&self, other: &PeerAddr) -> (r: bool) {
        match (self, other) {
            (PeerAddr::Ip { ip: i1, port: p1 }, PeerAddr::Ip { ip: i2, port: p2 }) => {
                *i1 == *i2 && *p1 == *p2
            },
            (PeerAddr::Onion { host: h1 }, PeerAddr::Onion { host: h2 }) => *h1 == *h2,
            _ => false,
        }
    }
}

impl Eq for PeerAddr {}

impl vstd::std_specs::cmp::PartialEqSpecImpl for PeerAddr {
    open spec fn obeys_eq_spec() -> bool {
        true
    }

    open spec fn eq_spec(&self, other: &PeerAddr) -> bool {
        self@ == other@
    }
}

/// Identity and live counters of one connected peer.
#[derive(Debug)]
pub struct PeerInfo {
    pub addr: PeerAddr,
    pub direction: Direction,
    pub capabilities: Capabilities,
    pub user_agent: String,
    /// Minimum transaction base fee the peer accepts.
    pub tx_base_fee: u64,
    /// Last reported chain height.
    pub height: u64,
    /// Last reported total difficulty.
    pub total_difficulty: u64,
    /// Timestamp (UTC seconds) of the last difficulty advance; drives the
    /// stuck-peer policy.
    pub last_diff_advance: i64,
}

impl Clone for PeerInfo {
    fn clone(&self) -> (r: Self)
        ensures
            r == *self,
    {
        PeerInfo {
            addr: self.addr.clone(),
            direction: self.direction,
            capabilities: self.capabilities,
            user_agent: self.user_agent.clone(),
            tx_base_fee: self.tx_base_fee,
            height: self.height,
            total_difficulty: self.total_difficulty,
            last_diff_advance: self.last_diff_advance,
        }
    }
}

impl PeerInfo {
    pub open spec fn is_outbound(self) -> bool {
        self.direction == Direction::Outbound
    }

    pub open spec fn is_inbound(self) -> bool {
        self.direction == Direction::Inbound
    }

    /// Record a height/difficulty announcement from the peer's worker. The
    /// advance timestamp moves only when the difficulty strictly grows.
    pub fn update(&mut self, height: u64, total_difficulty: u64, now: i64)
        ensures
            final(self).addr == old(self).addr,
            final(self).direction == old(self).direction,
            final(self).capabilities == old(self).capabilities,
            final(self).user_agent == old(self).user_agent,
            final(self).tx_base_fee == old(self).tx_base_fee,
            final(self).height == height,
            final(self).total_difficulty == total_difficulty,
            final(self).last_diff_advance == if total_difficulty > old(self).total_difficulty {
                now
            } else {
                old(self).last_diff_advance
            },
    {
        if total_difficulty > self.total_difficulty {
            self.last_diff_advance = now;
        }
        self.height = height;
        self.total_difficulty = total_difficulty;
    }
}

/// Persistent peer record kept in the store.
#[derive(Debug)]
pub struct PeerData {
    pub addr: PeerAddr,
    pub capabilities: Capabilities,
    pub user_agent: String,
    pub flags: State,
    /// Timestamp (UTC seconds) of the last ban, 0 if never banned.
    pub last_banned: i64,
    pub ban_reason: ReasonForBan,
    /// Timestamp (UTC seconds) of the last completed handshake.
    pub last_connected: i64,
}

impl Clone for PeerData {
    fn clone(&self) -> (r: Self)
        ensures
            r == *self,
    {
        PeerData {
            addr: self.addr.clone(),
            capabilities: self.capabilities,
            user_agent: self.user_agent.clone(),
            flags: self.flags,
            last_banned: self.last_banned,
            ban_reason: self.ban_reason,
            last_connected: self.last_connected,
        }
    }
}

/// Error taxonomy of the connection layer.
#[derive(Clone, Debug)]
pub enum Error {
    /// A registry lock could not be acquired in time.
    Timeout,
    Internal { msg: String },
    PeerNotFound,
    PeerNotBanned,
    PeerException { msg: String },
    /// The outbound queue of a peer is disconnected: its worker terminated.
    Send { msg: String },
    /// A connection was refused for a stated policy reason.
    ConnectionClose { msg: String },
    /// Refusal to connect to our own advertised address.
    PeerWithSelf,
    Connection { msg: String },
    Store { msg: String },
    Chain { msg: String },
}

/// Clone a vector of addresses, value for value.
pub fn clone_addrs(v: &Vec<PeerAddr>) -> (r: Vec<PeerAddr>)
    ensures
        r@ == v@,
{
    let mut r: Vec<PeerAddr> = Vec::new();
    let mut i: usize = 0;
    while i < v.len()
        invariant
            0 <= i <= v@.len(),
            r@ == v@.subrange(0, i as int),
        decreases v@.len() - i,
    {
        r.push(v[i].clone());
        assert(r@ =~= v@.subrange(0, i + 1 as int));
        i = i + 1;
    }
    assert(r@ =~= v@);
    r
}

/// Runtime configuration of the connection layer.
#[derive(Debug)]
pub struct P2PConfig {
    /// Admission cap on inbound peers.
    pub peer_max_inbound_count: u32,
    /// Admission cap on outbound peers outside of sync.
    pub peer_max_outbound_count: u32,
    /// Admission cap on outbound peers while syncing.
    pub peer_max_outbound_count_sync: u32,
    /// Extra headroom on inbound accept, to help network bootstrapping.
    pub peer_listener_buffer_count: u32,
    /// Sync-progress threshold outside of sync.
    pub peer_min_preferred_outbound_count: u32,
    /// Sync-progress threshold while syncing.
    pub peer_min_preferred_outbound_count_sync: u32,
    /// Addresses exempt from eviction policies.
    pub peers_preferred: Vec<PeerAddr>,
    /// Addresses we refuse to dial.
    pub peers_deny: Vec<PeerAddr>,
    /// Received- or sent-bytes-per-minute beyond which a peer counts as
    /// abusive.
    pub abuse_threshold_bytes_per_min: u64,
}

impl Clone for P2PConfig {
    fn clone(&self) -> (r: Self)
        ensures
            r.peer_max_inbound_count == self.peer_max_inbound_count,
            r.peer_max_outbound_count == self.peer_max_outbound_count,
            r.peer_max_outbound_count_sync == self.peer_max_outbound_count_sync,
            r.peer_listener_buffer_count == self.peer_listener_buffer_count,
            r.peer_min_preferred_outbound_count == self.peer_min_preferred_outbound_count,
            r.peer_min_preferred_outbound_count_sync
                == self.peer_min_preferred_outbound_count_sync,
            r.peers_preferred@ == self.peers_preferred@,
            r.peers_deny@ == self.peers_deny@,
            r.abuse_threshold_bytes_per_min == self.abuse_threshold_bytes_per_min,
    {
        let r = P2PConfig {
            peer_max_inbound_count: self.peer_max_inbound_count,
            peer_max_outbound_count: self.peer_max_outbound_count,
            peer_max_outbound_count_sync: self.peer_max_outbound_count_sync,
            peer_listener_buffer_count: self.peer_listener_buffer_count,
            peer_min_preferred_outbound_count: self.peer_min_preferred_outbound_count,
            peer_min_preferred_outbound_count_sync: self.peer_min_preferred_outbound_count_sync,
            peers_preferred: clone_addrs(&self.peers_preferred),
            peers_deny: clone_addrs(&self.peers_deny),
            abuse_threshold_bytes_per_min: self.abuse_threshold_bytes_per_min,
        };
        r
    }
}

impl P2PConfig {
    /// The outbound admission cap, which is larger while syncing.
    pub fn peer_max_outbound_count_for(&self, sync: bool) -> (r: u32)
        ensures
            r == if sync {
                self.peer_max_outbound_count_sync
            } else {
                self.peer_max_outbound_count
            },
    {
        if sync {
            self.peer_max_outbound_count_sync
        } else {
            self.peer_max_outbound_count
        }
    }

    /// The outbound count under which sync progress is considered starved.
    pub fn peer_min_preferred_outbound_count_for(&self, sync: bool) -> (r: u32)
        ensures
            r == if sync {
                self.peer_min_preferred_outbound_count_sync
            } else {
                self.peer_min_preferred_outbound_count
            },
    {
        if sync {
            self.peer_min_preferred_outbound_count_sync
        } else {
            self.peer_min_preferred_outbound_count
        }
    }
}

/// Whether a sequence of addresses holds one with the given value.
pub open spec fn addrs_contain(addrs: Seq<AddrSpec>, a: AddrSpec) -> bool {
    exists|i: int| 0 <= i < addrs.len() && addrs[i] == a
}

/// The address views of a vector of addresses.
pub open spec fn addr_views(addrs: Seq<PeerAddr>) -> Seq<AddrSpec> {
    addrs.map_values(|p: PeerAddr| p@)
}

/// Linear search for an address in a vector, the exec side of
/// [`addrs_contain`].
pub fn addr_list_contains(addrs: &Vec<PeerAddr>, a: &PeerAddr) -> (r: bool)
    ensures
        r == addrs_contain(addr_views(addrs@), a@),
{
    let mut i: usize = 0;
    while i < addrs.len()
        invariant
            0 <= i <= addrs@.len(),
            forall|j: int| 0 <= j < i ==> addr_views(addrs@)[j] != a@,
        decreases addrs@.len() - i,
    {
        assert(addr_views(addrs@)[i as int] == addrs@[i as int]@);
        if &addrs[i] == a {
            return true;
        }
        i = i + 1;
    }
    false
}

} // verus!
