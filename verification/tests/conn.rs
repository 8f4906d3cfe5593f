//! Connection-level scenarios: the bounded queue's drop-on-full policy,
//! the writer's batch-and-retry discipline, attachment handling and the
//! rate counters.

use p2p_core::conn::{
    attachment_chunk_step, rate_on_receive, read_error_action, reader_consume_step,
    writer_settle, writer_take_batch, AttachmentAction, AttachmentSlot, ConnHandle, RateCounter,
    ReadAction, ReadErrorKind, ReaderVerdict, Tracker, WriterRetry,
};
use p2p_core::msg::{AttachmentMeta, Consumed, Message, Msg, Transaction};
use p2p_core::peer::Peer;
use p2p_core::types::{Capabilities, Direction, IpAddress, PeerAddr, PeerInfo};
use p2p_core::SEND_CHANNEL_CAP;

fn test_info() -> PeerInfo {
    PeerInfo {
        addr: PeerAddr::Ip {
            ip: IpAddress::V4 { octets: 1 },
            port: 3414,
        },
        direction: Direction::Outbound,
        capabilities: Capabilities { bits: 0 },
        user_agent: String::new(),
        tx_base_fee: 0,
        height: 0,
        total_difficulty: 1,
        last_diff_advance: 0,
    }
}

#[test]
fn outbound_queue_drops_the_forty_first_message() {
    let mut peer = Peer::new(test_info());
    for n in 0..SEND_CHANNEL_CAP {
        let r = peer.send_transaction(Transaction {
            body: vec![n as u8],
            base_fee: 0,
        });
        assert!(matches!(r, Ok(true)));
    }
    assert_eq!(peer.conn.queue.msgs.len(), 40);
    // the forty-first send succeeds but is dropped, and the peer stays up
    let r = peer.send_transaction(Transaction {
        body: vec![99],
        base_fee: 0,
    });
    assert!(matches!(r, Ok(true)));
    assert_eq!(peer.conn.queue.msgs.len(), 40);
    assert!(peer.is_connected());
    // the queue still drains in order
    let mut retry = WriterRetry { batch: None };
    let batch = writer_take_batch(&mut peer.conn.queue, &mut retry).unwrap();
    assert_eq!(batch.len(), 40);
    match &batch[0] {
        Msg::Transaction { tx } => assert_eq!(tx.body, vec![0]),
        other => panic!("unexpected message {:?}", other),
    }
}

#[test]
fn send_fails_exactly_on_disconnected_queue() {
    let mut peer = Peer::new(test_info());
    peer.conn.queue.disconnected = true;
    let r = peer.send_ping(1, 2);
    assert!(r.is_err());
}

#[test]
fn writer_retries_failed_batches_before_new_traffic() {
    let mut handle = ConnHandle::new();
    handle.send(Msg::Ping {
        total_difficulty: 1,
        height: 2,
    })
    .unwrap();
    handle.send(Msg::Ping {
        total_difficulty: 3,
        height: 4,
    })
    .unwrap();
    let mut retry = WriterRetry { batch: None };
    let batch = writer_take_batch(&mut handle.queue, &mut retry).unwrap();
    assert_eq!(batch.len(), 2);
    assert_eq!(handle.queue.msgs.len(), 0);
    // a failed write parks the batch; it is taken again before the queue
    writer_settle(batch, false, &mut retry);
    handle.send(Msg::Ping {
        total_difficulty: 5,
        height: 6,
    })
    .unwrap();
    let again = writer_take_batch(&mut handle.queue, &mut retry).unwrap();
    assert_eq!(again.len(), 2);
    assert_eq!(handle.queue.msgs.len(), 1);
    writer_settle(again, true, &mut retry);
    assert!(retry.batch.is_none());
    // an empty queue with no retry has nothing to write
    let rest = writer_take_batch(&mut handle.queue, &mut retry).unwrap();
    assert_eq!(rest.len(), 1);
    assert!(writer_take_batch(&mut handle.queue, &mut retry).is_none());
}

#[test]
fn final_chunk_finalizes_and_stray_chunk_terminates() {
    let mut slot = AttachmentSlot::Closed;
    // an announcement opens the slot
    let mut conn = ConnHandle::new();
    let v = reader_consume_step(
        Consumed::Attachment {
            meta: AttachmentMeta { size: 100 },
        },
        &mut slot,
        &mut conn,
    );
    assert_eq!(v, ReaderVerdict::Continue);
    assert_eq!(slot, AttachmentSlot::Open);
    // intermediate chunks append, the final chunk closes the file
    assert_eq!(attachment_chunk_step(&mut slot, 60), AttachmentAction::Append);
    assert_eq!(attachment_chunk_step(&mut slot, 0), AttachmentAction::Finalize);
    assert_eq!(slot, AttachmentSlot::Closed);
    // a further chunk without a new announcement terminates the connection
    assert_eq!(attachment_chunk_step(&mut slot, 0), AttachmentAction::Terminate);
}

#[test]
fn reader_verdicts_follow_the_handler() {
    let mut slot = AttachmentSlot::Closed;
    let mut conn = ConnHandle::new();
    assert_eq!(
        reader_consume_step(Consumed::Nothing, &mut slot, &mut conn),
        ReaderVerdict::Continue
    );
    assert_eq!(
        reader_consume_step(
            Consumed::Response {
                msg: Msg::Ping {
                    total_difficulty: 1,
                    height: 1,
                },
            },
            &mut slot,
            &mut conn,
        ),
        ReaderVerdict::Continue
    );
    assert_eq!(conn.queue.msgs.len(), 1);
    assert_eq!(
        reader_consume_step(Consumed::Disconnect, &mut slot, &mut conn),
        ReaderVerdict::Disconnect
    );
}

#[test]
fn read_errors_break_only_on_fatal_kinds() {
    assert_eq!(read_error_action(ReadErrorKind::TimedOut), ReadAction::Retry);
    assert_eq!(
        read_error_action(ReadErrorKind::WouldBlock),
        ReadAction::RetryAfterSleep
    );
    assert_eq!(read_error_action(ReadErrorKind::StoreErr), ReadAction::Retry);
    assert_eq!(read_error_action(ReadErrorKind::ChainErr), ReadAction::Retry);
    assert_eq!(read_error_action(ReadErrorKind::InternalErr), ReadAction::Retry);
    assert_eq!(read_error_action(ReadErrorKind::OtherErr), ReadAction::Break);
}

#[test]
fn count_per_min_counts_only_loud_records_in_window() {
    let mut counter = RateCounter::new();
    counter.inc(1_000, 100);
    counter.inc(50_000, 200);
    counter.inc_quiet(55_000, 400);
    counter.inc_quiet(56_000, 800);
    counter.inc_quiet(57_000, 1600);
    // at 65 s the first record has left the window
    assert_eq!(counter.count_per_min(65_000), 1);
    assert_eq!(counter.bytes_per_min(65_000), 200 + 400 + 800 + 1600);
    // at 50 s everything recorded so far counts
    assert_eq!(counter.count_per_min(50_000), 2);
}

#[test]
fn rate_on_receive_is_quiet_for_bulk_transfers() {
    let mut tracker = Tracker::new();
    rate_on_receive(
        &mut tracker,
        &Message::Attachment {
            left: 10,
            bytes: vec![1, 2],
        },
        2,
        false,
        1000,
    );
    rate_on_receive(
        &mut tracker,
        &Message::Headers {
            count: 32,
            remaining: 480,
        },
        64,
        false,
        2000,
    );
    rate_on_receive(
        &mut tracker,
        &Message::Headers {
            count: 32,
            remaining: 0,
        },
        64,
        false,
        3000,
    );
    rate_on_receive(
        &mut tracker,
        &Message::Other {
            msg: Msg::Ping {
                total_difficulty: 1,
                height: 1,
            },
        },
        8,
        false,
        4000,
    );
    // two message ticks: the closing header frame and the ping
    assert_eq!(tracker.received_bytes.count_per_min(5000), 2);
    assert_eq!(tracker.received_bytes.bytes_per_min(5000), 2 + 64 + 64 + 8);
    // during sync nothing is counted at all
    let before = tracker.received_bytes.entries.len();
    rate_on_receive(
        &mut tracker,
        &Message::Unknown { type_byte: 99 },
        5,
        true,
        5000,
    );
    assert_eq!(tracker.received_bytes.entries.len(), before);
}

#[test]
fn tracker_splits_directions() {
    let mut tracker = Tracker::new();
    tracker.inc_received(10, 1000);
    tracker.inc_sent(20, 1000);
    tracker.inc_quiet_received(30, 1000);
    tracker.inc_quiet_sent(40, 1000);
    assert_eq!(tracker.received_bytes.bytes_per_min(1000), 40);
    assert_eq!(tracker.sent_bytes.bytes_per_min(1000), 60);
    assert_eq!(tracker.received_bytes.count_per_min(1000), 1);
    assert_eq!(tracker.sent_bytes.count_per_min(1000), 1);
}

#[test]
fn stray_attachment_chunk_without_open_slot_is_fatal() {
    let mut slot = AttachmentSlot::Closed;
    assert_eq!(attachment_chunk_step(&mut slot, 5), AttachmentAction::Terminate);
    assert_eq!(slot, AttachmentSlot::Closed);
}
