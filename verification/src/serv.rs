//! The server side of the connection layer: admission of inbound
//! connections and the dialing policy for outbound ones. The sockets
//! themselves are the host's; the server decides, for every address, what
//! may be dialed and what must be refused, and hands established peers to
//! the registry.

use vstd::prelude::*;

use crate::adapters::{ChainAdapter, NetAdapter};
use crate::msg::{Block, BlockHeader, CompactBlock, Transaction};
use crate::peer::Peer;
use crate::peers::{inbound_connected_from, PeerLite, Peers};
use crate::types::{
    addr_list_contains, addr_views, addrs_contain, AddrSpec, Capabilities, Error, IpAddress,
    P2PConfig, PeerAddr, PeerInfo, ReasonForBan,
};

verus! {

/// Extra dialing headroom over the configured caps before outbound
/// connects are refused outright.
pub const CONNECT_HEADROOM: u32 = 10;

/// The kind of a connect refusal: a typed close, or a self-loop.
pub enum Refusal {
    Close,
    SelfLoop,
}

/// What an approved outbound connect asks the host to do.
#[derive(Debug)]
pub enum ConnectAction {
    /// We already hold a connection to this address: use it.
    AlreadyConnected { peer: PeerLite },
    /// Dial the IP address directly.
    DialDirect { ip: IpAddress, port: u16 },
    /// Dial through the local SOCKS proxy on this port; required for
    /// onion targets.
    DialProxy { socks_port: u16, target: PeerAddr },
}

/// The peer-to-peer server.
#[derive(Debug)]
pub struct Server<A> {
    pub config: P2PConfig,
    pub socks_port: u16,
    pub capabilities: Capabilities,
    pub peers: Peers<A>,
    /// Mirrors the host's sync flag.
    pub syncing: bool,
    /// Set once the node is shutting down.
    pub stopped: bool,
    /// Whether policy rules for production networks apply.
    pub production_mode: bool,
    /// Our own onion address, when listening behind the proxy.
    pub self_onion_address: Option<String>,
    /// The addresses the handshake advertises as ours; dialing one of
    /// them would be a self-loop.
    pub self_addrs: Vec<PeerAddr>,
}

impl<A: ChainAdapter> Server<A> {
    /// Validity of the server: its registry is valid.
    pub open spec fn wf(self) -> bool {
        self.peers.wf()
    }

    /// A new idle server with no peers: the registry is built around the
    /// given store and adapter, and the advertised self addresses start
    /// empty until the handshake learns them.
    pub fn new(
        store: crate::store::PeerStore,
        capabilities: Capabilities,
        config: P2PConfig,
        adapter: A,
        production_mode: bool,
        socks_port: u16,
        onion_address: Option<String>,
    ) -> (s: Server<A>)
        requires
            store.wf(),
        ensures
            s.wf(),
            s.peers.live_map() == Map::<AddrSpec, Peer>::empty(),
            s.peers.store_map() == store.as_map(),
            s.config == config,
            s.socks_port == socks_port,
            s.capabilities == capabilities,
            s.production_mode == production_mode,
            s.self_onion_address == onion_address,
            !s.stopped,
            !s.syncing,
            s.self_addrs@.len() == 0,
    {
        let peers = Peers::new(store, adapter, config.clone());
        Server {
            config,
            socks_port,
            capabilities,
            peers,
            syncing: false,
            stopped: false,
            production_mode,
            self_onion_address: onion_address,
            self_addrs: Vec::new(),
        }
    }

    /// Whether `addr` is our own onion address.
    pub open spec fn spec_is_self_onion(self, addr: PeerAddr) -> bool {
        match (self.self_onion_address, addr) {
            (Some(own), PeerAddr::Onion { host }) => own@ == host@,
            _ => false,
        }
    }

    /// Which refusal, if any, the connect policy gives `addr`; `None`
    /// means the dial may proceed.
    pub open spec fn spec_connect_refusal(self, addr: PeerAddr) -> Option<Refusal> {
        if self.stopped {
            Some(Refusal::Close)
        } else if addrs_contain(addr_views(self.config.peers_deny@), addr@) {
            Some(Refusal::Close)
        } else if self.peers.live_map().dom().len() > self.config.peer_max_inbound_count
            + self.config.peer_max_outbound_count_sync + CONNECT_HEADROOM {
            Some(Refusal::Close)
        } else if self.production_mode && addrs_contain(addr_views(self.self_addrs@), addr@) {
            Some(Refusal::SelfLoop)
        } else if self.production_mode && self.self_onion_address is Some && (
        self.spec_is_self_onion(addr) || addr.spec_is_loopback()) {
            Some(Refusal::SelfLoop)
        } else {
            None
        }
    }

    /// Decide an outbound connect. Every refusal is a policy rule: a
    /// stopping node, a denylisted address, too many connections, or a
    /// self-loop. An address we already hold is handed back; everything
    /// else becomes a dial plan — direct for IP targets without a proxy,
    /// through the SOCKS proxy otherwise, and onion targets without a
    /// proxy are refused.
    pub fn connect(&self, addr: &PeerAddr) -> (r: Result<ConnectAction, Error>)
        requires
            self.wf(),
        ensures
            match r {
                Err(e) => match self.spec_connect_refusal(*addr) {
                    Some(refusal) => (e is ConnectionClose <==> refusal is Close) && (e
                        is PeerWithSelf <==> refusal is SelfLoop),
                    None => {
                        // only an onion target without a proxy is left to refuse
                        &&& e is ConnectionClose
                        &&& addr is Onion
                        &&& self.socks_port == 0
                        &&& !self.peers.spec_visible_connected(addr@)
                    },
                },
                Ok(act) => self.spec_connect_refusal(*addr) is None && match act {
                    ConnectAction::AlreadyConnected { peer } => self.peers.spec_visible_connected(
                        addr@,
                    ) && peer == crate::peers::lite_of(self.peers.live_map()[addr@]),
                    ConnectAction::DialDirect { ip, port } => !self.peers.spec_visible_connected(
                        addr@,
                    ) && self.socks_port == 0 && addr@ == (AddrSpec::Ip { ip, port }),
                    ConnectAction::DialProxy { socks_port, target } => {
                        &&& !self.peers.spec_visible_connected(addr@)
                        &&& self.socks_port != 0
                        &&& socks_port == self.socks_port
                        &&& target@ == addr@
                    },
                },
            },
    {
        if self.stopped {
            return Err(Error::ConnectionClose { msg: msg_node_stopping() });
        }
        if addr_list_contains(&self.config.peers_deny, addr) {
            return Err(Error::ConnectionClose { msg: msg_denied() });
        }
        let max_allowed = self.config.peer_max_inbound_count as u64
            + self.config.peer_max_outbound_count_sync as u64 + CONNECT_HEADROOM as u64;
        if self.peers.get_number_connected_peers() as u64 > max_allowed {
            return Err(Error::ConnectionClose { msg: msg_too_many() });
        }
        if self.production_mode && addr_list_contains(&self.self_addrs, addr) {
            return Err(Error::PeerWithSelf);
        }
        if self.production_mode && self.self_onion_address.is_some() {
            match addr {
                PeerAddr::Onion { host } => {
                    let own = match &self.self_onion_address {
                        Some(o) => o,
                        None => unreached(),
                    };
                    if *own == *host {
                        return Err(Error::PeerWithSelf);
                    }
                },
                PeerAddr::Ip { .. } => {
                    if addr.is_loopback() {
                        return Err(Error::PeerWithSelf);
                    }
                },
            }
        }
        match self.peers.get_connected_peer(addr) {
            Some(peer) => Ok(ConnectAction::AlreadyConnected { peer }),
            None => {
                match addr {
                    PeerAddr::Ip { ip, port } => {
                        if self.socks_port != 0 {
                            Ok(
                                ConnectAction::DialProxy {
                                    socks_port: self.socks_port,
                                    target: addr.clone(),
                                },
                            )
                        } else {
                            Ok(ConnectAction::DialDirect { ip: *ip, port: *port })
                        }
                    },
                    PeerAddr::Onion { .. } => {
                        if self.socks_port != 0 {
                            Ok(
                                ConnectAction::DialProxy {
                                    socks_port: self.socks_port,
                                    target: addr.clone(),
                                },
                            )
                        } else {
                            Err(Error::ConnectionClose { msg: msg_no_proxy() })
                        }
                    },
                }
            },
        }
    }

    /// Whether an accepted inbound connection must be shut down before the
    /// handshake: the inbound cap plus listener buffer is reached, the
    /// address is banned, or we already hold a connection to it.
    pub fn check_undesirable(&self, peer_addr: &Option<PeerAddr>) -> (r: bool)
        requires
            self.wf(),
        ensures
            r == {
                ||| inbound_connected_from(self.peers.peers@, 0, self.peers.excluded_views())
                    >= self.config.peer_max_inbound_count
                    + self.config.peer_listener_buffer_count
                ||| match *peer_addr {
                    Some(a) => (self.peers.store_map().dom().contains(a@)
                        && self.peers.store_map()[a@].flags == crate::types::State::Banned)
                        || self.peers.live_map().dom().contains(a@),
                    None => false,
                }
            },
    {
        let inbound = count_inbound_connected(&self.peers);
        if inbound as u64 >= self.config.peer_max_inbound_count as u64
            + self.config.peer_listener_buffer_count as u64 {
            return true;
        }
        match peer_addr {
            Some(a) => {
                if self.peers.is_banned(a) {
                    return true;
                }
                match self.peers.is_known(a) {
                    Ok(known) => known,
                    Err(_) => true,
                }
            },
            None => false,
        }
    }

    /// Admit a freshly handshaken inbound peer: refused while stopping or
    /// over the connection cap, registered otherwise.
    pub fn handle_new_peer(&mut self, peer: Peer) -> (r: Result<(), Error>)
        requires
            old(self).wf(),
        ensures
            final(self).wf(),
            *final(self) == (Server { peers: final(self).peers, ..*old(self) }),
            old(self).stopped ==> r is Err && r->Err_0 is ConnectionClose && *final(self) == *old(
                self,
            ),
            !old(self).stopped && old(self).peers.live_map().dom().len() > old(
                self,
            ).config.peer_max_inbound_count + old(self).config.peer_max_outbound_count_sync
                + CONNECT_HEADROOM ==> r is Err && r->Err_0 is ConnectionClose && *final(self)
                == *old(self),
            // admission is owed: short of stopping or the cap, the peer is
            // registered
            !old(self).stopped && old(self).peers.live_map().dom().len() <= old(
                self,
            ).config.peer_max_inbound_count + old(self).config.peer_max_outbound_count_sync
                + CONNECT_HEADROOM ==> r is Ok,
            r is Ok ==> final(self).peers.live_map() == old(self).peers.live_map().insert(
                peer.info.addr@,
                peer,
            ),
    {
        if self.stopped {
            return Err(Error::ConnectionClose { msg: msg_node_stopping() });
        }
        let max_allowed = self.config.peer_max_inbound_count as u64
            + self.config.peer_max_outbound_count_sync as u64 + CONNECT_HEADROOM as u64;
        if self.peers.get_number_connected_peers() as u64 > max_allowed {
            return Err(Error::ConnectionClose { msg: msg_too_many() });
        }
        let r = self.peers.add_connected(peer);
        match r {
            Ok(_) => Ok(()),
            Err(e) => Err(e),
        }
    }

    /// Whether the node is syncing.
    pub fn is_syncing(&self) -> (r: bool)
        ensures
            r == self.syncing,
    {
        self.syncing
    }

    /// Full shutdown: the stop flag goes up and every peer is stopped.
    pub fn stop(&mut self)
        requires
            old(self).wf(),
        ensures
            final(self).wf(),
            final(self).stopped,
            final(self).peers.live_map() == Map::<AddrSpec, Peer>::empty(),
            *final(self) == (Server { peers: final(self).peers, stopped: true, ..*old(self) }),
    {
        self.stopped = true;
        self.peers.stop();
    }

    /// Stop all current peers while keeping the listener; for tests only.
    pub fn pause(&mut self)
        requires
            old(self).wf(),
        ensures
            final(self).wf(),
            final(self).peers.live_map() == Map::<AddrSpec, Peer>::empty(),
            *final(self) == (Server { peers: final(self).peers, ..*old(self) }),
    {
        self.peers.stop();
    }
}

/// How many visible connected inbound peers the registry holds.
fn count_inbound_connected<A: ChainAdapter>(peers: &Peers<A>) -> (r: usize)
    requires
        peers.wf(),
    ensures
        r == inbound_connected_from(peers.peers@, 0, peers.excluded_views()),
{
    let ghost s0 = peers.peers@;
    let ghost excl = peers.excluded_views();
    let mut count: usize = 0;
    let mut j: usize = 0;
    while j < peers.peers.len()
        invariant
            peers.wf(),
            peers.peers@ == s0,
            peers.excluded_views() == excl,
            0 <= j <= s0.len(),
            count <= j,
            count + inbound_connected_from(s0, j as int, excl) == inbound_connected_from(
                s0,
                0,
                excl,
            ),
        decreases s0.len() - j,
    {
        let p = &peers.peers[j];
        if p.is_connected() && !addr_list_contains(&peers.excluded_peers, &p.info.addr) && matches!(
            p.info.direction,
            crate::types::Direction::Inbound,
        ) {
            count = count + 1;
        }
        j = j + 1;
    }
    count
}

/// The refusal message of a stopping node; no contract pins any wording.
fn msg_node_stopping() -> String {
    String::new()
}

/// The refusal message for a denylisted address.
fn msg_denied() -> String {
    String::new()
}

/// The refusal message when the connection caps are exhausted.
fn msg_too_many() -> String {
    String::new()
}

/// The refusal message for an onion target without a SOCKS proxy.
fn msg_no_proxy() -> String {
    String::new()
}

/// A no-op adapter used for testing.
#[derive(Clone, Copy, Debug, PartialEq, Eq, Structural)]
pub struct DummyAdapter {}

impl ChainAdapter for DummyAdapter {
    fn total_difficulty(&self) -> Result<u64, Error> {
        Ok(1)
    }

    fn total_height(&self) -> Result<u64, Error> {
        Ok(0)
    }

    fn get_transaction(&self, _kernel_hash: u64) -> Option<Transaction> {
        None
    }

    fn tx_kernel_received(&self, _kernel_hash: u64, _peer_info: &PeerInfo) -> Result<bool, Error> {
        Ok(true)
    }

    fn transaction_received(&self, _tx: Transaction, _stem: bool) -> Result<bool, Error> {
        Ok(true)
    }

    fn block_received(&self, _b: Block, _peer_info: &PeerInfo) -> Result<bool, Error> {
        Ok(true)
    }

    fn compact_block_received(&self, _cb: CompactBlock, _peer_info: &PeerInfo) -> Result<
        bool,
        Error,
    > {
        Ok(true)
    }

    fn header_received(&self, _bh: BlockHeader, _peer_info: &PeerInfo) -> Result<bool, Error> {
        Ok(true)
    }

    fn headers_received(
        &self,
        _bh: &Vec<BlockHeader>,
        _remaining: u64,
        _peer_info: &PeerInfo,
    ) -> Result<(), Error> {
        Ok(())
    }

    fn header_locator(&self) -> Result<Vec<u64>, Error> {
        Ok(Vec::new())
    }

    fn locate_headers(&self, _hs: &Vec<u64>) -> Result<Vec<BlockHeader>, Error> {
        Ok(Vec::new())
    }

    fn get_block(&self, _h: u64, _peer_info: &PeerInfo) -> Option<Block> {
        None
    }

    fn peer_difficulty(&self, _addr: &PeerAddr, _diff: u64, _height: u64) {
    }
}

impl NetAdapter for DummyAdapter {
    open spec fn inv(&self) -> bool {
        true
    }

    fn find_peer_addrs(&self, _capab: Capabilities) -> Vec<PeerAddr> {
        Vec::new()
    }

    fn peer_addrs_received(&mut self, _peer_addrs: Vec<PeerAddr>) {
    }

    fn net_is_banned(&self, _addr: &PeerAddr) -> bool {
        false
    }

    fn net_ban_peer(&mut self, _addr: &PeerAddr, _ban_reason: ReasonForBan) {
    }
}

} // verus!
