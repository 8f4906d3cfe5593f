//! Collaborator interfaces the connection layer demands of its host: the
//! chain behind it and the network-event surface. Nothing is promised of
//! an implementation's answers; every rule of the library states what
//! holds whatever an adapter returns.

use vstd::prelude::*;

use crate::msg::{Block, BlockHeader, CompactBlock, Transaction};
use crate::types::{Capabilities, Error, PeerAddr, PeerInfo, ReasonForBan};

verus! {

/// What the connection layer asks of the chain. An `Ok(false)` from a
/// `*_received` call marks the object itself as bad and leads to a ban;
/// an `Err` is surfaced up.
pub trait ChainAdapter {
    /// Total difficulty of our own tip.
    fn total_difficulty(&self) -> Result<u64, Error>;

    /// Height of our own tip.
    fn total_height(&self) -> Result<u64, Error>;

    /// A transaction by kernel hash, if the pool holds it.
    fn get_transaction(&self, kernel_hash: u64) -> Option<Transaction>;

    /// A kernel was announced by a peer.
    fn tx_kernel_received(&self, kernel_hash: u64, peer_info: &PeerInfo) -> Result<bool, Error>;

    /// A full transaction arrived; `stem` asks for the privacy-preserving
    /// relay phase.
    fn transaction_received(&self, tx: Transaction, stem: bool) -> Result<bool, Error>;

    /// A full block arrived.
    fn block_received(&self, b: Block, peer_info: &PeerInfo) -> Result<bool, Error>;

    /// A compact block arrived.
    fn compact_block_received(&self, cb: CompactBlock, peer_info: &PeerInfo) -> Result<
        bool,
        Error,
    >;

    /// A lone header arrived.
    fn header_received(&self, bh: BlockHeader, peer_info: &PeerInfo) -> Result<bool, Error>;

    /// A batch of headers arrived; `remaining` says how many of the full
    /// batch are still to come.
    fn headers_received(&self, bh: &Vec<BlockHeader>, remaining: u64, peer_info: &PeerInfo)
        -> Result<(), Error>;

    /// Hashes that locate our chain for a header request.
    fn header_locator(&self) -> Result<Vec<u64>, Error>;

    /// The headers following the most recent locator hash we recognize.
    fn locate_headers(&self, hs: &Vec<u64>) -> Result<Vec<BlockHeader>, Error>;

    /// A block of ours by hash, if we have it.
    fn get_block(&self, h: u64, peer_info: &PeerInfo) -> Option<Block>;

    /// A peer reported its tip difficulty and height.
    fn peer_difficulty(&self, addr: &PeerAddr, diff: u64, height: u64);
}

/// What the connection layer asks of the network-event surface.
pub trait NetAdapter {
    /// The validity the implementation maintains.
    spec fn inv(&self) -> bool;

    /// Healthy addresses we know with the given capability.
    fn find_peer_addrs(&self, capab: Capabilities) -> Vec<PeerAddr>
        requires
            self.inv(),
    ;

    /// A list of peer addresses arrived from gossip.
    fn peer_addrs_received(&mut self, peer_addrs: Vec<PeerAddr>)
        requires
            old(self).inv(),
        ensures
            final(self).inv(),
    ;

    /// Whether this address is banned in the store.
    fn net_is_banned(&self, addr: &PeerAddr) -> bool
        requires
            self.inv(),
    ;

    /// Ban this address, best effort.
    fn net_ban_peer(&mut self, addr: &PeerAddr, ban_reason: ReasonForBan)
        requires
            old(self).inv(),
        ensures
            final(self).inv(),
    ;
}

} // verus!
