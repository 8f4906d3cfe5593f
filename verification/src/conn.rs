//! Connection worker model: the bounded outbound queue with its
//! drop-on-full policy, byte-rate counters, the reader's dispatch and
//! attachment rules, and the writer's batch-and-retry discipline.
//!
//! The sockets and threads that drive a real connection live outside the
//! library; they feed these functions plain values and obey the verdicts
//! handed back.

use vstd::prelude::*;

use crate::msg::{AttachmentMeta, Consumed, Message, Msg, MsgSpec};
use crate::types::Error;
use crate::SEND_CHANNEL_CAP;

verus! {

/// Length of the rate window, in milliseconds: counters report per-minute
/// figures.
pub const RATE_WINDOW_MS: u64 = 60_000;

/// One recorded transfer: when, how many bytes, and whether it was counted
/// quietly (bytes only, no message tick).
#[derive(Clone, Copy, Debug, PartialEq, Eq, Structural)]
pub struct RateEntry {
    pub time_ms: u64,
    pub bytes: u64,
    pub quiet: bool,
}

/// Whether an entry falls inside the rate window ending at `now_ms`.
pub open spec fn in_window(e: RateEntry, now_ms: u64) -> bool {
    e.time_ms + RATE_WINDOW_MS > now_ms
}

/// How many non-quiet entries of `s` fall inside the window ending at
/// `now_ms`.
pub open spec fn spec_count_in_window(s: Seq<RateEntry>, now_ms: u64) -> nat {
    s.filter(|e: RateEntry| in_window(e, now_ms) && !e.quiet).len()
}

/// Total bytes, quiet or not, recorded inside the window ending at
/// `now_ms`.
pub open spec fn spec_bytes_in_window(s: Seq<RateEntry>, now_ms: u64) -> int
    decreases s.len(),
{
    if s.len() == 0 {
        0
    } else {
        spec_bytes_in_window(s.drop_last(), now_ms) + if in_window(s.last(), now_ms) {
            s.last().bytes as int
        } else {
            0
        }
    }
}

/// A byte-rate counter over a sliding one-minute window.
#[derive(Clone, Debug)]
pub struct RateCounter {
    pub entries: Vec<RateEntry>,
}

impl RateCounter {
    pub fn new() -> (r: RateCounter)
        ensures
            r.entries@ == Seq::<RateEntry>::empty(),
    {
        RateCounter { entries: Vec::new() }
    }

    /// Record `bytes` received or sent at `now_ms`, with a message tick.
    pub fn inc(&mut self, now_ms: u64, bytes: u64)
        ensures
            final(self).entries@ == old(self).entries@.push(
                RateEntry { time_ms: now_ms, bytes, quiet: false },
            ),
    {
        self.entries.push(RateEntry { time_ms: now_ms, bytes, quiet: false });
    }

    /// Record `bytes` at `now_ms` quietly: the bytes count toward the rate,
    /// but no message tick is taken. Bulk transfers are recorded this way
    /// so abuse detection does not fire on legitimate traffic.
    pub fn inc_quiet(&mut self, now_ms: u64, bytes: u64)
        ensures
            final(self).entries@ == old(self).entries@.push(
                RateEntry { time_ms: now_ms, bytes, quiet: true },
            ),
    {
        self.entries.push(RateEntry { time_ms: now_ms, bytes, quiet: true });
    }

    /// How many message ticks fall in the minute ending at `now_ms`: quiet
    /// records never count here.
    pub fn count_per_min(&self, now_ms: u64) -> (r: u64)
        ensures
            r == spec_count_in_window(self.entries@, now_ms),
    {
        let mut count: u64 = 0;
        let mut i: usize = 0;
        proof {
            assert(self.entries@.take(0int).filter(
                |e: RateEntry| in_window(e, now_ms) && !e.quiet,
            ) =~= Seq::<RateEntry>::empty());
        }
        while i < self.entries.len()
            invariant
                0 <= i <= self.entries@.len(),
                count == self.entries@.take(i as int).filter(
                    |e: RateEntry| in_window(e, now_ms) && !e.quiet,
                ).len(),
                count <= i,
            decreases self.entries@.len() - i,
        {
            let e = self.entries[i];
            proof {
                assert(self.entries@.take(i + 1int).drop_last() =~= self.entries@.take(i as int));
                reveal_with_fuel(Seq::filter, 2);
            }
            if (e.time_ms as u128) + (RATE_WINDOW_MS as u128) > (now_ms as u128) && !e.quiet {
                count = count + 1;
            }
            i = i + 1;
        }
        proof {
            assert(self.entries@.take(self.entries@.len() as int) =~= self.entries@);
        }
        count
    }

    /// Total bytes recorded in the minute ending at `now_ms`, quiet records
    /// included.
    pub fn bytes_per_min(&self, now_ms: u64) -> (r: u128)
        ensures
            r == spec_bytes_in_window(self.entries@, now_ms),
    {
        let mut sum: u128 = 0;
        let mut i: usize = 0;
        while i < self.entries.len()
            invariant
                0 <= i <= self.entries@.len(),
                sum == spec_bytes_in_window(self.entries@.take(i as int), now_ms),
                sum <= i * (u64::MAX as int),
            decreases self.entries@.len() - i,
        {
            let e = self.entries[i];
            proof {
                assert(self.entries@.take(i + 1int).drop_last() =~= self.entries@.take(i as int));
                assert(self.entries@.take(i + 1int).last() == e);
                assert(i * (u64::MAX as int) + (u64::MAX as int) <= usize::MAX * (
                u64::MAX as int)) by (nonlinear_arith)
                    requires
                        i + 1 <= usize::MAX,
                ;
            }
            if (e.time_ms as u128) + (RATE_WINDOW_MS as u128) > (now_ms as u128) {
                sum = sum + e.bytes as u128;
            }
            i = i + 1;
        }
        proof {
            assert(self.entries@.take(self.entries@.len() as int) =~= self.entries@);
        }
        sum
    }
}

/// Byte counters for one peer, split by direction.
#[derive(Clone, Debug)]
pub struct Tracker {
    /// Bytes we've sent.
    pub sent_bytes: RateCounter,
    /// Bytes we've received.
    pub received_bytes: RateCounter,
}

impl Tracker {
    pub fn new() -> (t: Tracker)
        ensures
            t.sent_bytes.entries@ == Seq::<RateEntry>::empty(),
            t.received_bytes.entries@ == Seq::<RateEntry>::empty(),
    {
        Tracker { sent_bytes: RateCounter::new(), received_bytes: RateCounter::new() }
    }

    pub fn inc_received(&mut self, size: u64, now_ms: u64)
        ensures
            final(self).received_bytes.entries@ == old(self).received_bytes.entries@.push(
                RateEntry { time_ms: now_ms, bytes: size, quiet: false },
            ),
            final(self).sent_bytes == old(self).sent_bytes,
    {
        self.received_bytes.inc(now_ms, size);
    }

    pub fn inc_sent(&mut self, size: u64, now_ms: u64)
        ensures
            final(self).sent_bytes.entries@ == old(self).sent_bytes.entries@.push(
                RateEntry { time_ms: now_ms, bytes: size, quiet: false },
            ),
            final(self).received_bytes == old(self).received_bytes,
    {
        self.sent_bytes.inc(now_ms, size);
    }

    pub fn inc_quiet_received(&mut self, size: u64, now_ms: u64)
        ensures
            final(self).received_bytes.entries@ == old(self).received_bytes.entries@.push(
                RateEntry { time_ms: now_ms, bytes: size, quiet: true },
            ),
            final(self).sent_bytes == old(self).sent_bytes,
    {
        self.received_bytes.inc_quiet(now_ms, size);
    }

    pub fn inc_quiet_sent(&mut self, size: u64, now_ms: u64)
        ensures
            final(self).sent_bytes.entries@ == old(self).sent_bytes.entries@.push(
                RateEntry { time_ms: now_ms, bytes: size, quiet: true },
            ),
            final(self).received_bytes == old(self).received_bytes,
    {
        self.sent_bytes.inc_quiet(now_ms, size);
    }
}

/// A receiver of inbound messages, implemented by the host: one verdict
/// per consumed message, with an optional response.
pub trait MessageHandler: Send + 'static {
    fn consume(&self, message: Message) -> Result<Consumed, Error>;
}

/// The received-message rate only counts what was recorded with a tick: a
/// quiet record moves the byte figure, never the message count.
pub proof fn lemma_count_per_min_counts_only_ticks(s: Seq<RateEntry>, e: RateEntry, now_ms: u64)
    ensures
        !e.quiet && in_window(e, now_ms) ==> spec_count_in_window(s.push(e), now_ms)
            == spec_count_in_window(s, now_ms) + 1,
        e.quiet || !in_window(e, now_ms) ==> spec_count_in_window(s.push(e), now_ms)
            == spec_count_in_window(s, now_ms),
{
    assert(s.push(e).drop_last() =~= s);
    reveal_with_fuel(Seq::filter, 2);
}

/// The stop flag shared by a peer's two workers: setting it makes both
/// exit at their next iteration boundary. Joining the real threads is the
/// host's part.
#[derive(Clone, Copy, Debug, PartialEq, Eq, Structural)]
pub struct StopHandle {
    pub stopped: bool,
}

impl StopHandle {
    pub fn new() -> (h: StopHandle)
        ensures
            !h.stopped,
    {
        StopHandle { stopped: false }
    }

    /// Schedule the connection to close: both workers observe the flag.
    pub fn stop(&mut self)
        ensures
            final(self).stopped,
    {
        self.stopped = true;
    }
}

/// The bounded outbound queue of one peer, together with its liveness: a
/// disconnected queue means the writer worker has terminated.
#[derive(Debug)]
pub struct OutboundQueue {
    pub msgs: Vec<Msg>,
    pub disconnected: bool,
}

impl OutboundQueue {
    /// The queued messages, oldest first.
    pub open spec fn contents(self) -> Seq<MsgSpec> {
        self.msgs@.map_values(|m: Msg| m@)
    }

    pub fn new() -> (q: OutboundQueue)
        ensures
            q.contents() == Seq::<MsgSpec>::empty(),
            !q.disconnected,
    {
        OutboundQueue { msgs: Vec::new(), disconnected: false }
    }

    pub fn len(&self) -> (r: usize)
        ensures
            r == self.contents().len(),
    {
        self.msgs.len()
    }
}

/// The send side of one peer's connection.
#[derive(Debug)]
pub struct ConnHandle {
    pub queue: OutboundQueue,
}

impl ConnHandle {
    pub fn new() -> (h: ConnHandle)
        ensures
            h.queue.contents() == Seq::<MsgSpec>::empty(),
            !h.queue.disconnected,
    {
        ConnHandle { queue: OutboundQueue::new() }
    }

    /// Enqueue a message without ever blocking. Three outcomes: enqueued
    /// (`Ok`, queue grows by one); silently dropped because the queue
    /// already holds its full capacity (`Ok`, queue unchanged — the remote
    /// may simply be slow, which is no error); `Err` if and only if the
    /// queue is disconnected, meaning the worker has terminated.
    pub fn send(&mut self, msg: Msg) -> (r: Result<(), Error>)
        ensures
            r is Err <==> old(self).queue.disconnected,
            final(self).queue.disconnected == old(self).queue.disconnected,
            old(self).queue.disconnected ==> final(self).queue.contents() == old(
                self,
            ).queue.contents(),
            !old(self).queue.disconnected && old(self).queue.contents().len() < SEND_CHANNEL_CAP
                ==> final(self).queue.contents() == old(self).queue.contents().push(msg@),
            !old(self).queue.disconnected && old(self).queue.contents().len() >= SEND_CHANNEL_CAP
                ==> final(self).queue.contents() == old(self).queue.contents(),
    {
        if self.queue.disconnected {
            return Err(Error::Send { msg: String::new() });
        }
        if self.queue.msgs.len() < SEND_CHANNEL_CAP {
            self.queue.msgs.push(msg);
            assert(self.queue.contents() =~= old(self).queue.contents().push(msg@));
            Ok(())
        } else {
            // Queue full: drop rather than block. Holding up the producer
            // would stall a whole broadcast round.
            Ok(())
        }
    }
}

/// What the reader does after classifying one read result that was not a
/// clean message.
#[derive(Clone, Copy, Debug, PartialEq, Eq, Structural)]
pub enum ReadAction {
    /// Transient: try again at once.
    Retry,
    /// Would-block: sleep briefly before retrying, to avoid a busy spin.
    RetryAfterSleep,
    /// Fatal: break the loop, shut the stream down both directions.
    Break,
}

/// The kind of a failed read, as the classification cares about it.
#[derive(Clone, Copy, Debug, PartialEq, Eq, Structural)]
pub enum ReadErrorKind {
    TimedOut,
    WouldBlock,
    StoreErr,
    ChainErr,
    InternalErr,
    OtherErr,
}

/// Classify one failed read: timeouts and would-block are never fatal;
/// transient store/chain/internal errors are skipped; anything else breaks
/// the loop.
pub fn read_error_action(kind: ReadErrorKind) -> (r: ReadAction)
    ensures
        r == match kind {
            ReadErrorKind::TimedOut => ReadAction::Retry,
            ReadErrorKind::WouldBlock => ReadAction::RetryAfterSleep,
            ReadErrorKind::StoreErr => ReadAction::Retry,
            ReadErrorKind::ChainErr => ReadAction::Retry,
            ReadErrorKind::InternalErr => ReadAction::Retry,
            ReadErrorKind::OtherErr => ReadAction::Break,
        },
{
    match kind {
        ReadErrorKind::TimedOut => ReadAction::Retry,
        ReadErrorKind::WouldBlock => ReadAction::RetryAfterSleep,
        ReadErrorKind::StoreErr => ReadAction::Retry,
        ReadErrorKind::ChainErr => ReadAction::Retry,
        ReadErrorKind::InternalErr => ReadAction::Retry,
        ReadErrorKind::OtherErr => ReadAction::Break,
    }
}

/// Update the rate tracker for one received message. Outside of sync,
/// attachment chunks and intermediate header batches are counted quietly —
/// bytes but no message tick — so abuse detection does not fire during
/// legitimate bulk transfers; during sync nothing is counted at all.
pub fn rate_on_receive(
    tracker: &mut Tracker,
    message: &Message,
    bytes_read: u64,
    syncing: bool,
    now_ms: u64,
)
    ensures
        syncing ==> *final(tracker) == *old(tracker),
        !syncing ==> final(tracker).sent_bytes == old(tracker).sent_bytes,
        !syncing ==> final(tracker).received_bytes.entries@ == old(
            tracker,
        ).received_bytes.entries@.push(
            RateEntry { time_ms: now_ms, bytes: bytes_read, quiet: quiet_receive(*message) },
        ),
{
    if syncing {
        return ;
    }
    match message {
        Message::Attachment { .. } => tracker.inc_quiet_received(bytes_read, now_ms),
        Message::Headers { count: _, remaining } => {
            // A full batch arrives split over several frames; only the
            // closing frame takes the message tick.
            if *remaining == 0 {
                tracker.inc_received(bytes_read, now_ms);
            } else {
                tracker.inc_quiet_received(bytes_read, now_ms);
            }
        },
        _ => tracker.inc_received(bytes_read, now_ms),
    }
}

/// Whether a received message is counted quietly outside of sync.
pub open spec fn quiet_receive(message: Message) -> bool {
    match message {
        Message::Attachment { .. } => true,
        Message::Headers { count, remaining } => remaining != 0,
        _ => false,
    }
}

/// The reader's attachment slot: closed, or open with a writer file on the
/// host side.
#[derive(Clone, Copy, Debug, PartialEq, Eq, Structural)]
pub enum AttachmentSlot {
    Closed,
    Open,
}

/// What the host must do with the file behind the attachment slot after
/// one attachment chunk.
#[derive(Clone, Copy, Debug, PartialEq, Eq, Structural)]
pub enum AttachmentAction {
    /// Append the chunk's bytes to the open file.
    Append,
    /// Append, then flush-and-sync and close the file: the chunk was final.
    Finalize,
    /// No attachment was announced: terminate the connection.
    Terminate,
}

/// Drive the attachment slot by one received chunk. A chunk with
/// `left == 0` finalizes the file and clears the slot; a chunk without an
/// open slot terminates the connection.
pub fn attachment_chunk_step(slot: &mut AttachmentSlot, left: u64) -> (action: AttachmentAction)
    ensures
        *old(slot) is Closed ==> action == AttachmentAction::Terminate && *final(slot)
            == *old(slot),
        *old(slot) is Open && left == 0 ==> action == AttachmentAction::Finalize && *final(slot)
            is Closed,
        *old(slot) is Open && left != 0 ==> action == AttachmentAction::Append && *final(slot)
            is Open,
{
    match slot {
        AttachmentSlot::Closed => AttachmentAction::Terminate,
        AttachmentSlot::Open => {
            if left == 0 {
                *slot = AttachmentSlot::Closed;
                AttachmentAction::Finalize
            } else {
                AttachmentAction::Append
            }
        },
    }
}

/// What the reader does after one handler verdict.
#[derive(Clone, Copy, Debug, PartialEq, Eq, Structural)]
pub enum ReaderVerdict {
    Continue,
    Disconnect,
}

/// Carry out one consume outcome: a response goes onto the outbound
/// queue, an attachment announcement opens the slot, and a disconnect
/// outcome breaks the loop.
pub fn reader_consume_step(
    consumed: Consumed,
    slot: &mut AttachmentSlot,
    conn: &mut ConnHandle,
) -> (r: ReaderVerdict)
    ensures
        consumed is Disconnect <==> r == ReaderVerdict::Disconnect,
        consumed is Attachment ==> *final(slot) is Open,
        !(consumed is Attachment) ==> *final(slot) == *old(slot),
        match consumed {
            Consumed::Response { msg } => !old(conn).queue.disconnected && old(
                conn,
            ).queue.contents().len() < SEND_CHANNEL_CAP ==> final(conn).queue.contents() == old(
                conn,
            ).queue.contents().push(msg@),
            _ => *final(conn) == *old(conn),
        },
{
    match consumed {
        Consumed::Nothing => ReaderVerdict::Continue,
        Consumed::Response { msg } => {
            // A send failure here mirrors a terminated worker; the reader
            // keeps going and the stop flag does the rest.
            let _ = conn.send(msg);
            ReaderVerdict::Continue
        },
        Consumed::Attachment { meta: _ } => {
            *slot = AttachmentSlot::Open;
            ReaderVerdict::Continue
        },
        Consumed::Disconnect => ReaderVerdict::Disconnect,
    }
}

/// The writer's pending batch: messages taken off the queue that were not
/// yet confirmed written.
#[derive(Debug)]
pub struct WriterRetry {
    pub batch: Option<Vec<Msg>>,
}

/// The messages of a pending batch, oldest first; empty when none is
/// pending.
pub open spec fn retry_contents(r: WriterRetry) -> Seq<MsgSpec> {
    match r.batch {
        Some(batch) => batch@.map_values(|m: Msg| m@),
        None => Seq::empty(),
    }
}

/// Take the writer's next batch: a pending retry batch takes precedence;
/// otherwise the whole queue is drained, oldest first, and handed out in
/// that order. Nothing is reordered and nothing is dropped.
pub fn writer_take_batch(queue: &mut OutboundQueue, retry: &mut WriterRetry) -> (batch: Option<
    Vec<Msg>,
>)
    ensures
        final(retry).batch is None,
        old(retry).batch is Some ==> {
            &&& batch is Some
            &&& batch->Some_0@.map_values(|m: Msg| m@) == retry_contents(*old(retry))
            &&& *final(queue) == *old(queue)
        },
        old(retry).batch is None && old(queue).contents().len() == 0 ==> batch is None
            && *final(queue) == *old(queue),
        old(retry).batch is None && old(queue).contents().len() > 0 ==> {
            &&& batch is Some
            &&& batch->Some_0@.map_values(|m: Msg| m@) == old(queue).contents()
            &&& final(queue).contents() == Seq::<MsgSpec>::empty()
            &&& final(queue).disconnected == old(queue).disconnected
        },
{
    let pending = retry.batch.take();
    match pending {
        Some(batch) => Some(batch),
        None => {
            if self_queue_is_empty(queue) {
                None
            } else {
                let mut drained: Vec<Msg> = Vec::new();
                core::mem::swap(&mut drained, &mut queue.msgs);
                assert(queue.contents() =~= Seq::<MsgSpec>::empty());
                Some(drained)
            }
        },
    }
}

/// Whether the queue holds no message.
fn self_queue_is_empty(queue: &OutboundQueue) -> (r: bool)
    ensures
        r == (queue.contents().len() == 0),
{
    queue.msgs.len() == 0
}

/// Settle one write attempt: a fully written batch is done with; a failed
/// batch is parked in the retry slot, consulted first on the next
/// iteration — messages are never silently lost to transient write errors.
pub fn writer_settle(batch: Vec<Msg>, write_ok: bool, retry: &mut WriterRetry)
    ensures
        write_ok ==> *final(retry) == *old(retry),
        !write_ok ==> final(retry).batch is Some && retry_contents(*final(retry)) == batch@.map_values(
            |m: Msg| m@,
        ),
{
    if !write_ok {
        retry.batch = Some(batch);
    }
}

/// A message enqueued while the queue has free capacity is part of the
/// very next batch the writer takes (no retry pending), at the end of the
/// batch, in first-in-first-out order: granted a live worker it reaches
/// the socket.
pub proof fn lemma_enqueued_message_is_drained(
    q0: OutboundQueue,
    q1: OutboundQueue,
    q2: OutboundQueue,
    m: MsgSpec,
    batch: Seq<MsgSpec>,
)
    requires
        !q0.disconnected,
        q0.contents().len() < SEND_CHANNEL_CAP,
        // after the send:
        q1.contents() == q0.contents().push(m),
        // after the writer takes its batch:
        batch == q1.contents(),
        q2.contents() == Seq::<MsgSpec>::empty(),
    ensures
        batch.len() > 0,
        batch.last() == m,
        forall|i: int| 0 <= i < q0.contents().len() ==> batch[i] == q0.contents()[i],
{
}

} // verus!
