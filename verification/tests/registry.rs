//! Registry-level scenarios: broadcast fan-out, pruning, banning and
//! gossip intake.

use p2p_core::conn::{ConnHandle, OutboundQueue, RateCounter, RateEntry, Tracker};
use p2p_core::msg::{BlockHeader, CompactBlock, Transaction};
use p2p_core::peer::Peer;
use p2p_core::peers::Peers;
use p2p_core::serv::DummyAdapter;
use p2p_core::store::PeerStore;
use p2p_core::types::{
    Capabilities, Direction, IpAddress, P2PConfig, PeerAddr, PeerData, PeerInfo, ReasonForBan,
    State,
};

fn ip(n: u32) -> PeerAddr {
    PeerAddr::Ip {
        ip: IpAddress::V4 { octets: n },
        port: 3414,
    }
}

fn info(n: u32, direction: Direction) -> PeerInfo {
    PeerInfo {
        addr: ip(n),
        direction,
        capabilities: Capabilities { bits: 0 },
        user_agent: String::new(),
        tx_base_fee: 0,
        height: 0,
        total_difficulty: 1,
        last_diff_advance: 1_000_000,
    }
}

fn peer(n: u32, direction: Direction) -> Peer {
    Peer::new(info(n, direction))
}

fn config() -> P2PConfig {
    P2PConfig {
        peer_max_inbound_count: 128,
        peer_max_outbound_count: 8,
        peer_max_outbound_count_sync: 16,
        peer_listener_buffer_count: 8,
        peer_min_preferred_outbound_count: 8,
        peer_min_preferred_outbound_count_sync: 16,
        peers_preferred: Vec::new(),
        peers_deny: Vec::new(),
        abuse_threshold_bytes_per_min: 1_000_000,
    }
}

fn registry() -> Peers<DummyAdapter> {
    Peers::new(PeerStore::new(), DummyAdapter {}, config())
}

fn disconnected_peer(n: u32, direction: Direction) -> Peer {
    let mut p = peer(n, direction);
    p.conn = ConnHandle {
        queue: OutboundQueue {
            msgs: Vec::new(),
            disconnected: true,
        },
    };
    p
}

#[test]
fn broadcast_drops_failing_peers_and_counts_the_rest() {
    let mut peers = registry();
    for n in 1..=3u32 {
        peers.add_connected_at(peer(n, Direction::Outbound), 100).unwrap();
    }
    // two peers whose worker is gone: their queue is disconnected
    peers.add_connected_at(disconnected_peer(4, Direction::Outbound), 100).unwrap();
    peers.add_connected_at(disconnected_peer(5, Direction::Outbound), 100).unwrap();

    let block = CompactBlock {
        header: BlockHeader {
            hash: 7,
            height: 10,
            total_difficulty: 11,
        },
    };
    let count = peers.broadcast_compact_block(&block);
    assert_eq!(count, 3);
    assert_eq!(peers.get_number_connected_peers(), 3);
    assert!(peers.get_connected_peer(&ip(4)).is_none());
    assert!(peers.get_connected_peer(&ip(5)).is_none());
    // every survivor got the block exactly once
    for p in &peers.peers {
        assert_eq!(p.conn.queue.msgs.len(), 1);
    }
}

#[test]
fn broadcast_transaction_respects_base_fee_filter() {
    let mut peers = registry();
    let mut cheap = peer(1, Direction::Outbound);
    cheap.info.tx_base_fee = 5;
    let mut dear = peer(2, Direction::Outbound);
    dear.info.tx_base_fee = 50;
    peers.add_connected_at(cheap, 100).unwrap();
    peers.add_connected_at(dear, 100).unwrap();
    let tx = Transaction {
        body: vec![1, 2, 3],
        base_fee: 10,
    };
    let count = peers.broadcast_transaction(tx, 7);
    assert_eq!(count, 1);
}

#[test]
fn abusive_peer_is_pruned_and_banned_in_store() {
    let mut peers = registry();
    let mut cfg = config();
    cfg.abuse_threshold_bytes_per_min = 1000;
    let mut p = peer(1, Direction::Outbound);
    p.tracker = Tracker {
        sent_bytes: RateCounter { entries: Vec::new() },
        received_bytes: RateCounter {
            entries: vec![RateEntry {
                time_ms: 90_000,
                bytes: 2000,
                quiet: false,
            }],
        },
    };
    peers.add_connected_at(p, 100).unwrap();
    peers.add_connected_at(peer(2, Direction::Outbound), 100).unwrap();

    peers.clean_peers_at(128, 8, Capabilities { bits: 0 }, &cfg, 1, 0, 0, 1_000_000, 100_000);
    assert!(peers.get_connected_peer(&ip(1)).is_none());
    assert!(peers.get_connected_peer(&ip(2)).is_some());
    let rec = peers.get_peer(&ip(1)).unwrap();
    assert_eq!(rec.flags, State::Banned);
}

#[test]
fn stopped_peer_is_gone_within_one_prune_cycle() {
    let mut peers = registry();
    peers.add_connected_at(peer(1, Direction::Outbound), 100).unwrap();
    peers.add_connected_at(peer(2, Direction::Outbound), 100).unwrap();
    peers.peers[0].stop();
    assert!(peers.peers[0].stop_handle.stopped);
    let cfg = config();
    peers.clean_peers_at(128, 8, Capabilities { bits: 0 }, &cfg, 1, 0, 0, 1_000_000, 100_000);
    assert!(peers.get_connected_peer(&ip(1)).is_none());
    assert!(peers.get_connected_peer(&ip(2)).is_some());
}

#[test]
fn clean_peers_twice_removes_nothing_the_second_time() {
    let mut peers = registry();
    for n in 1..=4u32 {
        peers.add_connected_at(peer(n, Direction::Outbound), 100).unwrap();
    }
    let cfg = config();
    peers.clean_peers_at(128, 8, Capabilities { bits: 0 }, &cfg, 1, 0, 0, 1_000_000, 100_000);
    let after_first: Vec<usize> = vec![peers.get_number_connected_peers()];
    peers.clean_peers_at(128, 8, Capabilities { bits: 0 }, &cfg, 1, 0, 0, 1_000_000, 100_000);
    assert_eq!(peers.get_number_connected_peers(), after_first[0]);
    assert_eq!(peers.get_number_connected_peers(), 4);
}

#[test]
fn underperforming_outbound_peer_is_dropped_after_three_cycles() {
    let mut peers = registry();
    let mut slow = peer(1, Direction::Outbound);
    slow.info.height = 5;
    slow.info.total_difficulty = 3;
    peers.add_connected_at(slow, 100).unwrap();
    let cfg = config();
    // our tip: height 10, difficulty 50 — the peer is far behind
    for _ in 0..2 {
        peers.clean_peers_at(128, 8, Capabilities { bits: 0 }, &cfg, 50, 10, 0, 1_000_000, 100_000);
        assert!(peers.get_connected_peer(&ip(1)).is_some());
    }
    peers.clean_peers_at(128, 8, Capabilities { bits: 0 }, &cfg, 50, 10, 0, 1_000_000, 100_000);
    assert!(peers.get_connected_peer(&ip(1)).is_none());
}

#[test]
fn excess_outbound_sheds_at_most_two_per_cycle() {
    let mut peers = registry();
    for n in 1..=8u32 {
        peers.add_connected_at(peer(n, Direction::Outbound), 100).unwrap();
    }
    let cfg = config();
    // cap of 3 outbound: 5 in excess, but shedding is gradual
    peers.clean_peers_at(128, 3, Capabilities { bits: 0 }, &cfg, 1, 0, 0, 1_000_000, 100_000);
    assert_eq!(peers.get_number_connected_peers(), 6);
}

#[test]
fn excess_inbound_is_fully_shed() {
    let mut peers = registry();
    for n in 1..=6u32 {
        peers.add_connected_at(peer(n, Direction::Inbound), 100).unwrap();
    }
    let cfg = config();
    peers.clean_peers_at(2, 8, Capabilities { bits: 0 }, &cfg, 1, 0, 0, 1_000_000, 100_000);
    assert_eq!(peers.get_number_connected_peers(), 2);
}

#[test]
fn ban_peer_updates_store_and_removes_live_peer() {
    let mut peers = registry();
    peers.add_connected_at(peer(1, Direction::Outbound), 100).unwrap();
    assert!(!peers.is_banned(&ip(1)));
    peers.ban_peer_at(&ip(1), ReasonForBan::BadBlock, 200).unwrap();
    assert!(peers.is_banned(&ip(1)));
    assert!(peers.get_connected_peer(&ip(1)).is_none());
}

#[test]
fn ban_of_unknown_address_is_an_error() {
    let mut peers = registry();
    assert!(peers.ban_peer_at(&ip(9), ReasonForBan::BadBlock, 200).is_err());
}

#[test]
fn unban_requires_a_banned_record() {
    let mut peers = registry();
    peers.add_connected_at(peer(1, Direction::Outbound), 100).unwrap();
    assert!(peers.unban_peer(&ip(1)).is_err());
    peers.ban_peer_at(&ip(1), ReasonForBan::ManualBan, 200).unwrap();
    peers.unban_peer(&ip(1)).unwrap();
    assert!(!peers.is_banned(&ip(1)));
    assert!(peers.unban_peer(&ip(9)).is_err());
}

#[test]
fn admit_ban_record_sequence_is_idempotent_over_the_store() {
    let run = |peers: &mut Peers<DummyAdapter>| {
        peers.add_connected_at(peer(1, Direction::Outbound), 100).unwrap();
        let _ = peers.ban_peer_at(&ip(1), ReasonForBan::BadHandshake, 200);
        peers.add_banned_at(ip(1), ReasonForBan::BadHandshake, 300).unwrap();
    };
    let mut peers = registry();
    run(&mut peers);
    let once = peers.get_peer(&ip(1)).unwrap();
    run(&mut peers);
    let twice = peers.get_peer(&ip(1)).unwrap();
    assert_eq!(once.flags, twice.flags);
    assert_eq!(once.last_banned, twice.last_banned);
    assert_eq!(once.ban_reason, twice.ban_reason);
    assert_eq!(once.last_connected, twice.last_connected);
    assert_eq!(once.user_agent, twice.user_agent);
    assert_eq!(peers.store.records.len(), 1);
}

#[test]
fn boost_mode_is_sticky_for_its_window_only() {
    let mut peers = registry();
    assert!(!peers.is_boosting_mode_at(0));
    peers.set_boost_peers_capabilities_at(Capabilities { bits: 2 }, 1000);
    assert!(peers.is_boosting_mode_at(1000));
    assert!(peers.is_boosting_mode_at(1119));
    assert!(!peers.is_boosting_mode_at(1120));
    assert!(peers.is_sync_mode());
    // an unchanged hint keeps its original timestamp
    peers.set_boost_peers_capabilities_at(Capabilities { bits: 2 }, 1100);
    assert!(!peers.is_boosting_mode_at(1120));
    assert_eq!(peers.get_boost_peers_capabilities().bits, 2);
}

#[test]
fn excluded_peers_are_invisible_to_broadcast_and_iteration() {
    let mut peers = registry();
    peers.add_connected_at(peer(1, Direction::Outbound), 100).unwrap();
    peers.add_connected_at(peer(2, Direction::Outbound), 100).unwrap();
    peers.set_excluded_peers(&vec![ip(1)]);
    assert_eq!(peers.iter().connected().count(), 1);
    assert!(peers.get_connected_peer(&ip(1)).is_none());
    let header = BlockHeader {
        hash: 1,
        height: 2,
        total_difficulty: 3,
    };
    let count = peers.broadcast_header(&header);
    assert_eq!(count, 1);
}

#[test]
fn gossip_saves_only_unknown_addresses_as_healthy() {
    let mut peers = registry();
    peers.add_banned_at(ip(1), ReasonForBan::BadHandshake, 50).unwrap();
    peers.peer_addrs_received(vec![ip(1), ip(2), ip(2), ip(3)]);
    assert_eq!(peers.get_peer(&ip(1)).unwrap().flags, State::Banned);
    let two = peers.get_peer(&ip(2)).unwrap();
    assert_eq!(two.flags, State::Healthy);
    assert_eq!(two.last_connected, 0);
    assert!(peers.get_peer(&ip(3)).is_ok());
    assert_eq!(peers.store.records.len(), 3);
}

#[test]
fn find_peer_addrs_lists_healthy_records() {
    let mut peers = registry();
    peers.peer_addrs_received(vec![ip(1), ip(2)]);
    peers.add_banned_at(ip(3), ReasonForBan::BadHandshake, 50).unwrap();
    let found = peers.find_peer_addrs(Capabilities { bits: 0 });
    assert_eq!(found.len(), 2);
}

#[test]
fn remove_expired_drops_old_defunct_records_only() {
    let mut peers = registry();
    let old_defunct = PeerData {
        addr: ip(1),
        capabilities: Capabilities { bits: 0 },
        user_agent: String::new(),
        flags: State::Defunct,
        last_banned: 0,
        ban_reason: ReasonForBan::NoReason,
        last_connected: 0,
    };
    let fresh_defunct = PeerData {
        flags: State::Defunct,
        last_connected: 9_999_999,
        addr: ip(2),
        ..old_defunct.clone()
    };
    let healthy = PeerData {
        flags: State::Healthy,
        addr: ip(3),
        ..old_defunct.clone()
    };
    peers.save_peer(&old_defunct).unwrap();
    peers.save_peer(&fresh_defunct).unwrap();
    peers.save_peer(&healthy).unwrap();
    peers.remove_expired_at(10_000_000);
    assert!(peers.get_peer(&ip(1)).is_err());
    assert!(peers.get_peer(&ip(2)).is_ok());
    assert!(peers.get_peer(&ip(3)).is_ok());
}

#[test]
fn peer_difficulty_updates_live_counters() {
    let mut peers = registry();
    peers.add_connected_at(peer(1, Direction::Outbound), 100).unwrap();
    peers.peer_difficulty_at(&ip(1), 77, 44, 500);
    let l = peers.get_connected_peer(&ip(1)).unwrap();
    assert_eq!(l.info.total_difficulty, 77);
    assert_eq!(l.info.height, 44);
    assert_eq!(l.info.last_diff_advance, 500);
}

#[test]
fn block_received_ok_false_bans_the_sender() {
    struct Rejecting {}
    impl p2p_core::adapters::ChainAdapter for Rejecting {
        fn total_difficulty(&self) -> Result<u64, p2p_core::types::Error> {
            Ok(1)
        }
        fn total_height(&self) -> Result<u64, p2p_core::types::Error> {
            Ok(0)
        }
        fn get_transaction(&self, _kernel_hash: u64) -> Option<Transaction> {
            None
        }
        fn tx_kernel_received(
            &self,
            _kernel_hash: u64,
            _peer_info: &PeerInfo,
        ) -> Result<bool, p2p_core::types::Error> {
            Ok(true)
        }
        fn transaction_received(
            &self,
            _tx: Transaction,
            _stem: bool,
        ) -> Result<bool, p2p_core::types::Error> {
            Ok(true)
        }
        fn block_received(
            &self,
            _b: p2p_core::msg::Block,
            _peer_info: &PeerInfo,
        ) -> Result<bool, p2p_core::types::Error> {
            Ok(false)
        }
        fn compact_block_received(
            &self,
            _cb: CompactBlock,
            _peer_info: &PeerInfo,
        ) -> Result<bool, p2p_core::types::Error> {
            Ok(false)
        }
        fn header_received(
            &self,
            _bh: BlockHeader,
            _peer_info: &PeerInfo,
        ) -> Result<bool, p2p_core::types::Error> {
            Ok(false)
        }
        fn headers_received(
            &self,
            _bh: &Vec<BlockHeader>,
            _remaining: u64,
            _peer_info: &PeerInfo,
        ) -> Result<(), p2p_core::types::Error> {
            Ok(())
        }
        fn header_locator(&self) -> Result<Vec<u64>, p2p_core::types::Error> {
            Ok(Vec::new())
        }
        fn locate_headers(
            &self,
            _hs: &Vec<u64>,
        ) -> Result<Vec<BlockHeader>, p2p_core::types::Error> {
            Ok(Vec::new())
        }
        fn get_block(&self, _h: u64, _peer_info: &PeerInfo) -> Option<p2p_core::msg::Block> {
            None
        }
        fn peer_difficulty(&self, _addr: &PeerAddr, _diff: u64, _height: u64) {}
    }

    let mut peers = Peers::new(PeerStore::new(), Rejecting {}, config());
    peers.add_connected_at(peer(1, Direction::Outbound), 100).unwrap();
    let sender = info(1, Direction::Outbound);
    let b = p2p_core::msg::Block {
        header: BlockHeader {
            hash: 9,
            height: 1,
            total_difficulty: 1,
        },
    };
    let r = peers.block_received(b, &sender);
    assert!(matches!(r, Ok(false)));
    assert!(peers.is_banned(&ip(1)));
    assert!(peers.get_connected_peer(&ip(1)).is_none());
}

#[test]
fn peers_iter_pipeline_filters_and_ranks() {
    let mut peers = registry();
    let mut a = peer(1, Direction::Outbound);
    a.info.total_difficulty = 10;
    a.info.height = 100;
    let mut b = peer(2, Direction::Inbound);
    b.info.total_difficulty = 30;
    b.info.height = 50;
    let mut c = peer(3, Direction::Outbound);
    c.info.total_difficulty = 20;
    c.info.height = 200;
    c.connected = false;
    peers.add_connected_at(a, 100).unwrap();
    peers.add_connected_at(b, 100).unwrap();
    peers.add_connected_at(c, 100).unwrap();

    assert_eq!(peers.iter().count(), 3);
    assert_eq!(peers.iter().connected().count(), 2);
    assert_eq!(peers.iter().outbound().connected().count(), 1);
    assert_eq!(peers.iter().inbound().count(), 1);
    assert_eq!(peers.iter().with_difficulty(15).count(), 2);
    assert_eq!(peers.iter().with_min_height(100).count(), 2);
    assert_eq!(peers.iter().max_difficulty(), Some(30));
    assert!(peers.iter().by_addr(&ip(2)).is_some());
    assert!(peers.iter().by_addr(&ip(9)).is_none());
    let chosen = peers.iter().connected().choose_random();
    assert!(chosen.is_some());
    assert_eq!(peers.iter().inoutbound().count(), 3);
}

#[test]
fn stop_empties_the_live_map() {
    let mut peers = registry();
    peers.add_connected_at(peer(1, Direction::Outbound), 100).unwrap();
    peers.add_connected_at(peer(2, Direction::Inbound), 100).unwrap();
    peers.stop();
    assert_eq!(peers.get_number_connected_peers(), 0);
}

#[test]
fn enough_outbound_peers_counts_fee_matches() {
    let mut cfg = config();
    cfg.peer_min_preferred_outbound_count = 2;
    let mut peers = Peers::new(PeerStore::new(), DummyAdapter {}, cfg);
    let mut cheap = peer(1, Direction::Outbound);
    cheap.info.tx_base_fee = 1;
    let mut dear = peer(2, Direction::Outbound);
    dear.info.tx_base_fee = 100;
    peers.add_connected_at(cheap, 100).unwrap();
    peers.add_connected_at(dear, 100).unwrap();
    // two outbound, but only one matches our base fee: 1 < 2/2 is false,
    // so 1 >= 1 passes
    assert!(peers.enough_outbound_peers(10));
    let mut third = peer(3, Direction::Outbound);
    third.info.tx_base_fee = 100;
    peers.add_connected_at(third, 100).unwrap();
    assert!(peers.enough_outbound_peers(10));
}

#[test]
fn boost_trim_sheds_peers_without_the_capability() {
    let mut peers = registry();
    for n in 1..=4u32 {
        let mut p = peer(n, Direction::Outbound);
        if n <= 2 {
            p.info.capabilities = Capabilities { bits: 4 };
        }
        peers.add_connected_at(p, 100).unwrap();
    }
    let cfg = config();
    // outbound cap 8: half is 4, no excess, nothing leaves
    peers.clean_peers_at(128, 8, Capabilities { bits: 4 }, &cfg, 1, 0, 0, 1_000_000, 100_000);
    assert_eq!(peers.get_number_connected_peers(), 4);
    // outbound cap 4: at most half may lack the capability, so the two
    // peers without it are shed and the capable ones stay
    peers.clean_peers_at(128, 4, Capabilities { bits: 4 }, &cfg, 1, 0, 0, 1_000_000, 100_000);
    assert!(peers.get_connected_peer(&ip(1)).is_some());
    assert!(peers.get_connected_peer(&ip(2)).is_some());
    assert_eq!(peers.get_number_connected_peers(), 2);
}

#[test]
fn check_all_pings_and_drops_dead_workers() {
    let mut peers = registry();
    peers.add_connected_at(peer(1, Direction::Outbound), 100).unwrap();
    peers.add_connected_at(disconnected_peer(2, Direction::Outbound), 100).unwrap();
    peers.check_all(42, 7);
    assert_eq!(peers.get_number_connected_peers(), 1);
    let survivor = &peers.peers[0];
    assert_eq!(survivor.conn.queue.msgs.len(), 1);
    match &survivor.conn.queue.msgs[0] {
        p2p_core::msg::Msg::Ping {
            total_difficulty,
            height,
        } => {
            assert_eq!(*total_difficulty, 42);
            assert_eq!(*height, 7);
        }
        other => panic!("unexpected message {:?}", other),
    }
}

#[test]
fn second_prune_cycle_after_flag_removals_removes_nothing() {
    let mut peers = registry();
    for n in 1..=3u32 {
        peers.add_connected_at(peer(n, Direction::Outbound), 100).unwrap();
    }
    let mut dead = peer(4, Direction::Outbound);
    dead.connected = false;
    peers.add_connected_at(dead, 100).unwrap();
    let cfg = config();
    peers.clean_peers_at(128, 8, Capabilities { bits: 0 }, &cfg, 1, 0, 0, 1_000_000, 100_000);
    assert_eq!(peers.get_number_connected_peers(), 3);
    peers.clean_peers_at(128, 8, Capabilities { bits: 0 }, &cfg, 1, 0, 0, 1_000_000, 100_000);
    assert_eq!(peers.get_number_connected_peers(), 3);
}

#[test]
fn preferred_peers_survive_capacity_evictions() {
    let mut cfg = config();
    cfg.peers_preferred = vec![ip(1)];
    let mut peers = Peers::new(PeerStore::new(), DummyAdapter {}, cfg.clone());
    for n in 1..=5u32 {
        peers.add_connected_at(peer(n, Direction::Inbound), 100).unwrap();
    }
    // inbound cap 2: the three non-preferred excess peers go first
    peers.clean_peers_at(2, 8, Capabilities { bits: 0 }, &cfg, 1, 0, 0, 1_000_000, 100_000);
    assert!(peers.get_connected_peer(&ip(1)).is_some());
}

#[test]
fn with_capabilities_matches_bit_supersets() {
    let mut peers = registry();
    let mut capable = peer(1, Direction::Outbound);
    capable.info.capabilities = Capabilities { bits: 0b110 };
    peers.add_connected_at(capable, 100).unwrap();
    peers.add_connected_at(peer(2, Direction::Outbound), 100).unwrap();
    assert_eq!(peers.iter().with_capabilities(Capabilities { bits: 0b010 }).count(), 1);
    assert_eq!(peers.iter().with_capabilities(Capabilities { bits: 0 }).count(), 2);
    assert_eq!(peers.iter().with_capabilities(Capabilities { bits: 0b001 }).count(), 0);
}

#[test]
fn save_peers_upserts_in_order() {
    let mut peers = registry();
    let base = PeerData {
        addr: ip(1),
        capabilities: Capabilities { bits: 0 },
        user_agent: String::new(),
        flags: State::Healthy,
        last_banned: 0,
        ban_reason: ReasonForBan::NoReason,
        last_connected: 7,
    };
    let newer = PeerData {
        last_connected: 9,
        ..base.clone()
    };
    peers.save_peers(vec![base, newer]).unwrap();
    assert_eq!(peers.get_peer(&ip(1)).unwrap().last_connected, 9);
    assert!(peers.exists_peer(&ip(1)).unwrap());
    peers.delete_peer(&ip(1)).unwrap();
    assert!(!peers.exists_peer(&ip(1)).unwrap());
    assert!(peers.delete_peer(&ip(1)).is_err());
}

#[test]
fn excluded_peers_survive_a_prune_cycle() {
    let mut peers = registry();
    let mut dead = peer(1, Direction::Outbound);
    dead.connected = false;
    peers.add_connected_at(dead, 100).unwrap();
    peers.add_connected_at(peer(2, Direction::Outbound), 100).unwrap();
    peers.set_excluded_peers(&vec![ip(1)]);
    let cfg = config();
    peers.clean_peers_at(128, 8, Capabilities { bits: 0 }, &cfg, 1, 0, 0, 1_000_000, 100_000);
    // even a dead peer stays while excluded: the cycle cannot see it
    assert_eq!(peers.peers.len(), 2);
}

#[test]
fn gossip_records_start_blank() {
    let mut peers = registry();
    peers.peer_addrs_received(vec![ip(7)]);
    let rec = peers.get_peer(&ip(7)).unwrap();
    assert_eq!(rec.capabilities.bits, 0);
    assert_eq!(rec.user_agent, "");
    assert_eq!(rec.last_banned, 0);
    assert_eq!(rec.ban_reason, ReasonForBan::NoReason);
}

#[test]
fn underperformance_counter_rises_by_one_per_cycle() {
    let mut peers = registry();
    let mut slow = peer(1, Direction::Outbound);
    slow.info.height = 5;
    slow.info.total_difficulty = 3;
    peers.add_connected_at(slow, 100).unwrap();
    let cfg = config();
    peers.clean_peers_at(128, 8, Capabilities { bits: 0 }, &cfg, 50, 10, 0, 1_000_000, 100_000);
    assert_eq!(peers.out_peers_failures.len(), 1);
    assert_eq!(peers.out_peers_failures[0].count, 1);
    peers.clean_peers_at(128, 8, Capabilities { bits: 0 }, &cfg, 50, 10, 0, 1_000_000, 100_000);
    assert_eq!(peers.out_peers_failures[0].count, 2);
    // once the peer keeps pace again, the counter resets away
    peers.peers[0].info.height = 10;
    peers.clean_peers_at(128, 8, Capabilities { bits: 0 }, &cfg, 50, 10, 0, 1_000_000, 100_000);
    assert_eq!(peers.out_peers_failures.len(), 0);
    assert!(peers.get_connected_peer(&ip(1)).is_some());
}
