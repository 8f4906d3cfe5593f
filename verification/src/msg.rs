//! Wire message model: the outbound messages a peer handle can enqueue,
//! the inbound messages a connection worker dispatches on, and the verdict
//! a message handler returns.

use vstd::prelude::*;

use crate::types::ReasonForBan;

verus! {

/// The part of a block header the connection layer reads: identity plus the
/// counters that drive peer ranking.
#[derive(Clone, Copy, Debug, PartialEq, Eq, Structural)]
pub struct BlockHeader {
    pub hash: u64,
    pub height: u64,
    pub total_difficulty: u64,
}

/// The part of a full block the connection layer reads.
#[derive(Clone, Copy, Debug, PartialEq, Eq, Structural)]
pub struct Block {
    pub header: BlockHeader,
}

/// The part of a compact block the connection layer reads.
#[derive(Clone, Copy, Debug, PartialEq, Eq, Structural)]
pub struct CompactBlock {
    pub header: BlockHeader,
}

/// The part of a transaction the connection layer reads: its serialized
/// body and the base fee rate it pays, which admission to a remote pool is
/// judged by.
#[derive(Debug)]
pub struct Transaction {
    pub body: Vec<u8>,
    pub base_fee: u64,
}

impl Transaction {
    /// The base fee rate this transaction offers at the given height.
    pub fn get_base_fee(&self, _height: u64) -> (r: u64)
        ensures
            r == self.base_fee,
    {
        self.base_fee
    }
}

impl Clone for Transaction {
    fn clone(&self) -> (r: Self)
        ensures
            r.body@ == self.body@,
            r.base_fee == self.base_fee,
    {
        Transaction { body: self.body.clone(), base_fee: self.base_fee }
    }
}

/// An outbound message, as a peer handle enqueues it.
#[derive(Debug)]
pub enum Msg {
    Ping { total_difficulty: u64, height: u64 },
    Header { header: BlockHeader },
    CompactBlock { block: CompactBlock },
    Transaction { tx: Transaction },
    BanReason { reason: ReasonForBan },
    Raw { bytes: Vec<u8> },
}

/// The mathematical value of a [`Msg`].
pub enum MsgSpec {
    Ping { total_difficulty: u64, height: u64 },
    Header { header: BlockHeader },
    CompactBlock { block: CompactBlock },
    Transaction { body: Seq<u8>, base_fee: u64 },
    BanReason { reason: ReasonForBan },
    Raw { bytes: Seq<u8> },
}

impl View for Msg {
    type V = MsgSpec;

    open spec fn view(&self) -> MsgSpec {
        match self {
            Msg::Ping { total_difficulty, height } => MsgSpec::Ping {
                total_difficulty: *total_difficulty,
                height: *height,
            },
            Msg::Header { header } => MsgSpec::Header { header: *header },
            Msg::CompactBlock { block } => MsgSpec::CompactBlock { block: *block },
            Msg::Transaction { tx } => MsgSpec::Transaction {
                body: tx.body@,
                base_fee: tx.base_fee,
            },
            Msg::BanReason { reason } => MsgSpec::BanReason { reason: *reason },
            Msg::Raw { bytes } => MsgSpec::Raw { bytes: bytes@ },
        }
    }
}

impl Clone for Msg {
    fn clone(&self) -> (r: Self)
        ensures
            r@ == self@,
    {
        match self {
            Msg::Ping { total_difficulty, height } => Msg::Ping {
                total_difficulty: *total_difficulty,
                height: *height,
            },
            Msg::Header { header } => Msg::Header { header: *header },
            Msg::CompactBlock { block } => Msg::CompactBlock { block: *block },
            Msg::Transaction { tx } => Msg::Transaction { tx: tx.clone() },
            Msg::BanReason { reason } => Msg::BanReason { reason: *reason },
            Msg::Raw { bytes } => Msg::Raw { bytes: bytes.clone() },
        }
    }
}

/// Metadata of an announced attachment: how many bytes the sender will
/// stream out of band.
#[derive(Clone, Copy, Debug, PartialEq, Eq, Structural)]
pub struct AttachmentMeta {
    pub size: u64,
}

/// An inbound message as the connection worker's reader sees it. Only the
/// distinctions the reader acts on are kept; everything else is `Other`.
#[derive(Debug)]
pub enum Message {
    /// A frame with an unrecognized type byte.
    Unknown { type_byte: u8 },
    /// One chunk of an attachment; `left` is how many bytes remain after
    /// this chunk, so `left == 0` marks the final chunk.
    Attachment { left: u64, bytes: Vec<u8> },
    /// A header batch; `remaining` is how many headers of the full batch
    /// are still to come in later frames.
    Headers { count: u64, remaining: u64 },
    /// Any other protocol message, passed to the handler.
    Other { msg: Msg },
}

/// The verdict a message handler returns for one consumed message.
#[derive(Debug)]
pub enum Consumed {
    /// Nothing to do.
    Nothing,
    /// Enqueue this response on the outbound queue.
    Response { msg: Msg },
    /// An attachment of the given size follows; open a writer for it.
    Attachment { meta: AttachmentMeta },
    /// Terminate the connection.
    Disconnect,
}

} // verus!
