//! One connected peer: identity, liveness and ban flags, byte counters and
//! the send side of its connection. The two worker threads that move bytes
//! live on the host side; stopping a peer here models the flag being set
//! and the workers winding down.

use vstd::prelude::*;

use crate::conn::{ConnHandle, StopHandle, Tracker};
use crate::msg::{BlockHeader, CompactBlock, Msg, MsgSpec, Transaction};
use crate::types::{Error, PeerInfo, ReasonForBan};
use crate::SEND_CHANNEL_CAP;

verus! {

/// How long a peer's reported difficulty may stand still, in seconds,
/// before the peer counts as stuck.
pub const STUCK_WINDOW_SECS: i64 = 3600;

/// One peer as the registry owns it.
#[derive(Debug)]
pub struct Peer {
    pub info: PeerInfo,
    /// Whether the connection workers are alive. Stopping the peer or a
    /// fatal worker error clears this.
    pub connected: bool,
    /// The banned flag; a banned peer is removed at the next prune cycle
    /// at the latest.
    pub banned: bool,
    pub tracker: Tracker,
    pub conn: ConnHandle,
    pub stop_handle: StopHandle,
}

impl Peer {
    /// A freshly handshaken peer: workers alive, not banned, empty queue
    /// and counters.
    pub fn new(info: PeerInfo) -> (p: Peer)
        ensures
            p.info == info,
            p.connected,
            !p.banned,
            !p.stop_handle.stopped,
            p.conn.queue.contents() == Seq::<MsgSpec>::empty(),
            !p.conn.queue.disconnected,
            p.tracker.received_bytes.entries@.len() == 0,
            p.tracker.sent_bytes.entries@.len() == 0,
    {
        Peer {
            info,
            connected: true,
            banned: false,
            tracker: Tracker::new(),
            conn: ConnHandle::new(),
            stop_handle: StopHandle::new(),
        }
    }

    pub fn is_connected(&self) -> (r: bool)
        ensures
            r == self.connected,
    {
        self.connected
    }

    pub fn is_banned(&self) -> (r: bool)
        ensures
            r == self.banned,
    {
        self.banned
    }

    /// Mark the peer banned; the next prune cycle removes it.
    pub fn set_banned(&mut self)
        ensures
            *final(self) == (Peer { banned: true, ..*old(self) }),
    {
        self.banned = true;
    }

    /// Whether the peer moved more bytes per minute, in either direction,
    /// than the given threshold allows.
    pub fn is_abusive(&self, now_ms: u64, threshold_bytes_per_min: u64) -> (r: bool)
        ensures
            r == self.spec_is_abusive(now_ms, threshold_bytes_per_min),
    {
        let received = self.tracker.received_bytes.bytes_per_min(now_ms);
        let sent = self.tracker.sent_bytes.bytes_per_min(now_ms);
        received > threshold_bytes_per_min as u128 || sent > threshold_bytes_per_min as u128
    }

    pub open spec fn spec_is_abusive(self, now_ms: u64, threshold_bytes_per_min: u64) -> bool {
        crate::conn::spec_bytes_in_window(self.tracker.received_bytes.entries@, now_ms)
            > threshold_bytes_per_min || crate::conn::spec_bytes_in_window(
            self.tracker.sent_bytes.entries@,
            now_ms,
        ) > threshold_bytes_per_min
    }

    /// Whether the peer's reported difficulty has stood still past the
    /// window.
    pub open spec fn spec_is_stuck(self, now: i64) -> bool {
        now - self.info.last_diff_advance > STUCK_WINDOW_SECS
    }

    /// The stuck verdict, paired with the peer's last reported difficulty.
    pub fn is_stuck(&self, now: i64) -> (r: (bool, u64))
        ensures
            r.0 == self.spec_is_stuck(now),
            r.1 == self.info.total_difficulty,
    {
        let stuck = (now as i128) - (self.info.last_diff_advance as i128) > (
        STUCK_WINDOW_SECS as i128);
        (stuck, self.info.total_difficulty)
    }

    /// What one non-blocking send does to this peer's queue: enqueued when
    /// open and below capacity, dropped when full, `Err` exactly when the
    /// queue is disconnected.
    pub open spec fn send_outcome(pre: Peer, post: Peer, m: MsgSpec, r: Result<(), Error>) -> bool {
        &&& (r is Err <==> pre.conn.queue.disconnected)
        &&& post == Peer { conn: post.conn, ..pre }
        &&& post.conn.queue.disconnected == pre.conn.queue.disconnected
        &&& (pre.conn.queue.disconnected ==> post.conn.queue.contents()
            == pre.conn.queue.contents())
        &&& (!pre.conn.queue.disconnected && pre.conn.queue.contents().len() < SEND_CHANNEL_CAP
            ==> post.conn.queue.contents() == pre.conn.queue.contents().push(m))
        &&& (!pre.conn.queue.disconnected && pre.conn.queue.contents().len() >= SEND_CHANNEL_CAP
            ==> post.conn.queue.contents() == pre.conn.queue.contents())
    }

    /// Enqueue a message on the outbound queue, never blocking.
    pub fn send(&mut self, msg: Msg) -> (r: Result<(), Error>)
        ensures
            Peer::send_outcome(*old(self), *final(self), msg@, r),
    {
        let ghost m = msg@;
        self.conn.send(msg)
    }

    /// Ping the peer with our tip difficulty and height.
    pub fn send_ping(&mut self, total_difficulty: u64, height: u64) -> (r: Result<(), Error>)
        ensures
            Peer::send_outcome(
                *old(self),
                *final(self),
                MsgSpec::Ping { total_difficulty, height },
                r,
            ),
    {
        self.send(Msg::Ping { total_difficulty, height })
    }

    /// Relay a block header.
    pub fn send_header(&mut self, header: BlockHeader) -> (r: Result<bool, Error>)
        ensures
            Peer::send_outcome(
                *old(self),
                *final(self),
                MsgSpec::Header { header },
                match r {
                    Ok(_) => Ok(()),
                    Err(e) => Err(e),
                },
            ),
            r is Ok ==> r->Ok_0,
    {
        match self.send(Msg::Header { header }) {
            Ok(_) => Ok(true),
            Err(e) => Err(e),
        }
    }

    /// Relay a compact block.
    pub fn send_compact_block(&mut self, block: CompactBlock) -> (r: Result<bool, Error>)
        ensures
            Peer::send_outcome(
                *old(self),
                *final(self),
                MsgSpec::CompactBlock { block },
                match r {
                    Ok(_) => Ok(()),
                    Err(e) => Err(e),
                },
            ),
            r is Ok ==> r->Ok_0,
    {
        match self.send(Msg::CompactBlock { block }) {
            Ok(_) => Ok(true),
            Err(e) => Err(e),
        }
    }

    /// Relay a transaction.
    pub fn send_transaction(&mut self, tx: Transaction) -> (r: Result<bool, Error>)
        ensures
            Peer::send_outcome(
                *old(self),
                *final(self),
                MsgSpec::Transaction { body: tx.body@, base_fee: tx.base_fee },
                match r {
                    Ok(_) => Ok(()),
                    Err(e) => Err(e),
                },
            ),
            r is Ok ==> r->Ok_0,
    {
        match self.send(Msg::Transaction { tx }) {
            Ok(_) => Ok(true),
            Err(e) => Err(e),
        }
    }

    /// Tell the peer why it is being banned, best effort.
    pub fn send_ban_reason(&mut self, reason: ReasonForBan) -> (r: Result<(), Error>)
        ensures
            Peer::send_outcome(*old(self), *final(self), MsgSpec::BanReason { reason }, r),
    {
        self.send(Msg::BanReason { reason })
    }

    /// Signal both workers to wind down; the peer is no longer connected.
    pub fn stop(&mut self)
        ensures
            *final(self) == (Peer {
                connected: false,
                stop_handle: StopHandle { stopped: true },
                ..*old(self)
            }),
    {
        self.stop_handle.stop();
        self.connected = false;
    }
}

} // verus!
