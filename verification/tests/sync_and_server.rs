//! Sync pacing, header-sync bookkeeping and server admission scenarios.

use p2p_core::peer::Peer;
use p2p_core::peers::Peers;
use p2p_core::serv::{ConnectAction, DummyAdapter, Server};
use p2p_core::store::PeerStore;
use p2p_core::sync::{
    wait_for_min_peers_done, HeaderSyncTracker, SyncRequestResponses, SyncResponse, SyncRunner,
    SyncStatus, MAX_HEADER_TIMEOUTS,
};
use p2p_core::types::{
    Capabilities, Direction, Error, IpAddress, P2PConfig, PeerAddr, PeerInfo,
};

fn ip(n: u32) -> PeerAddr {
    PeerAddr::Ip {
        ip: IpAddress::V4 { octets: n },
        port: 3414,
    }
}

fn onion(host: &str) -> PeerAddr {
    PeerAddr::Onion {
        host: host.to_owned(),
    }
}

fn info(n: u32, direction: Direction, difficulty: u64) -> PeerInfo {
    PeerInfo {
        addr: ip(n),
        direction,
        capabilities: Capabilities { bits: 0 },
        user_agent: String::new(),
        tx_base_fee: 0,
        height: 0,
        total_difficulty: difficulty,
        last_diff_advance: 0,
    }
}

fn config() -> P2PConfig {
    P2PConfig {
        peer_max_inbound_count: 4,
        peer_max_outbound_count: 8,
        peer_max_outbound_count_sync: 16,
        peer_listener_buffer_count: 2,
        peer_min_preferred_outbound_count: 8,
        peer_min_preferred_outbound_count_sync: 16,
        peers_preferred: Vec::new(),
        peers_deny: Vec::new(),
        abuse_threshold_bytes_per_min: 1_000_000,
    }
}

fn registry() -> Peers<DummyAdapter> {
    Peers::new(PeerStore::new(), DummyAdapter {}, config())
}

fn server(peers: Peers<DummyAdapter>) -> Server<DummyAdapter> {
    Server {
        config: config(),
        socks_port: 0,
        capabilities: Capabilities { bits: 0 },
        peers,
        syncing: false,
        stopped: false,
        production_mode: true,
        self_onion_address: Some("x.onion".to_owned()),
        self_addrs: Vec::new(),
    }
}

#[test]
fn quarantine_exits_on_enough_peers_or_timeout() {
    // enough ready peers ends the wait at once
    assert!(wait_for_min_peers_done(SyncStatus::AwaitingPeers, false, 3, 0));
    assert!(!wait_for_min_peers_done(SyncStatus::AwaitingPeers, false, 2, 0));
    // while awaiting peers the budget is thirty seconds
    assert!(!wait_for_min_peers_done(SyncStatus::AwaitingPeers, false, 0, 30));
    assert!(wait_for_min_peers_done(SyncStatus::AwaitingPeers, false, 0, 31));
    // in any other stage it is three
    assert!(!wait_for_min_peers_done(SyncStatus::HeaderSync, false, 0, 3));
    assert!(wait_for_min_peers_done(SyncStatus::HeaderSync, false, 0, 4));
    // a stopping node never waits
    assert!(wait_for_min_peers_done(SyncStatus::AwaitingPeers, true, 0, 0));
}

#[test]
fn runner_counts_only_ready_outbound_peers() {
    let mut peers = registry();
    peers.add_connected_at(Peer::new(info(1, Direction::Outbound, 10)), 100).unwrap();
    peers.add_connected_at(Peer::new(info(2, Direction::Outbound, 5)), 100).unwrap();
    peers.add_connected_at(Peer::new(info(3, Direction::Inbound, 10)), 100).unwrap();
    let runner = SyncRunner::new(peers);
    assert_eq!(runner.count_ready_peers(10), 1);
    assert_eq!(runner.count_ready_peers(5), 2);
    // at a zero head only real work counts
    assert_eq!(runner.count_ready_peers(0), 2);
    assert!(!runner.wait_step(10, 0));
    assert!(runner.wait_step(10, 31));
}

#[test]
fn sync_tick_follows_the_manager_verdict() {
    let mut runner = SyncRunner::new(registry());

    let act = runner.sync_tick(
        SyncResponse {
            response: SyncRequestResponses::WaitingForPeers,
            peers_capabilities: Capabilities { bits: 2 },
        },
        1000,
    );
    assert_eq!(runner.sync_state, SyncStatus::AwaitingPeers);
    assert_eq!(runner.peers.get_boost_peers_capabilities().bits, 2);
    assert_eq!(act.sleep_ms, 1000);
    assert!(!act.compact_chain);

    runner.sync_state = SyncStatus::HeaderSync;
    let act = runner.sync_tick(
        SyncResponse {
            response: SyncRequestResponses::Syncing,
            peers_capabilities: Capabilities { bits: 2 },
        },
        1010,
    );
    assert_eq!(runner.sync_state, SyncStatus::HeaderSync);
    assert_eq!(act.sleep_ms, 1000);

    let act = runner.sync_tick(
        SyncResponse {
            response: SyncRequestResponses::HasMoreHeadersToApply,
            peers_capabilities: Capabilities { bits: 2 },
        },
        1020,
    );
    assert_eq!(act.sleep_ms, 100);
    assert_eq!(runner.sync_state, SyncStatus::HeaderSync);

    let act = runner.sync_tick(
        SyncResponse {
            response: SyncRequestResponses::SyncDone,
            peers_capabilities: Capabilities { bits: 2 },
        },
        1030,
    );
    assert_eq!(runner.sync_state, SyncStatus::NoSync);
    assert_eq!(runner.peers.get_boost_peers_capabilities().bits, 0);
    assert!(act.compact_chain);
    assert_eq!(act.post_done_service_secs, 20);
}

#[test]
fn header_timeouts_reissue_and_drop_after_three() {
    let mut tracker = HeaderSyncTracker::new();
    let a = ip(1);
    let b = ip(2);
    // a batch goes to the first candidate; while it is outstanding the
    // same peer is not asked again
    let picked = tracker.request_batch(&vec![a.clone(), b.clone()], 0, 100).unwrap();
    assert_eq!(picked, a);
    let picked2 = tracker.request_batch(&vec![a.clone(), b.clone()], 512, 100).unwrap();
    assert_eq!(picked2, b);
    // never answered: past the deadline both expire and the counters rise
    let expired = tracker.check_timeouts(200);
    assert_eq!(expired.len(), 2);
    assert_eq!(tracker.timeout_count(&a), 1);
    assert_eq!(tracker.timeout_count(&b), 1);
    // two more silent rounds for the first peer
    for round in 0..2 {
        let p = tracker.request_batch(&vec![a.clone()], 1024 + round, 300).unwrap();
        assert_eq!(p, a);
        let e = tracker.check_timeouts(400);
        assert_eq!(e.len(), 1);
    }
    assert_eq!(tracker.timeout_count(&a), MAX_HEADER_TIMEOUTS);
    // three timeouts running: the peer is dropped and re-issue goes to
    // another peer
    let drop_list = tracker.peers_to_drop();
    assert_eq!(drop_list.len(), 1);
    assert_eq!(drop_list[0], a);
    let reissued = tracker.request_batch(&vec![a.clone(), b.clone()], 1536, 500).unwrap();
    assert_eq!(reissued, b);
    // an answer settles the batch and forgives the peer
    tracker.batch_received(&b, 1536);
    assert_eq!(tracker.timeout_count(&b), 0);
    assert!(tracker.in_flight.is_empty());
}

#[test]
fn connect_refuses_self_onion_loop() {
    let srv = server(registry());
    let r = srv.connect(&onion("x.onion"));
    assert!(matches!(r, Err(Error::PeerWithSelf)));
    assert_eq!(srv.peers.get_number_connected_peers(), 0);
}

#[test]
fn connect_refuses_loopback_in_production() {
    let srv = server(registry());
    let loopback = PeerAddr::Ip {
        ip: IpAddress::V4 {
            octets: 127 << 24 | 1,
        },
        port: 3414,
    };
    assert!(matches!(srv.connect(&loopback), Err(Error::PeerWithSelf)));
}

#[test]
fn connect_plans_direct_and_proxied_dials() {
    let mut srv = server(registry());
    match srv.connect(&ip(8)) {
        Ok(ConnectAction::DialDirect { port, .. }) => assert_eq!(port, 3414),
        other => panic!("unexpected {:?}", other),
    }
    srv.socks_port = 9050;
    match srv.connect(&ip(8)) {
        Ok(ConnectAction::DialProxy { socks_port, .. }) => assert_eq!(socks_port, 9050),
        other => panic!("unexpected {:?}", other),
    }
    match srv.connect(&onion("y.onion")) {
        Ok(ConnectAction::DialProxy { socks_port, .. }) => assert_eq!(socks_port, 9050),
        other => panic!("unexpected {:?}", other),
    }
    // an onion target needs the proxy
    srv.socks_port = 0;
    assert!(matches!(
        srv.connect(&onion("y.onion")),
        Err(Error::ConnectionClose { .. })
    ));
}

#[test]
fn connect_refuses_denied_and_stopping() {
    let mut srv = server(registry());
    srv.config.peers_deny = vec![ip(6)];
    assert!(matches!(
        srv.connect(&ip(6)),
        Err(Error::ConnectionClose { .. })
    ));
    srv.stopped = true;
    assert!(matches!(
        srv.connect(&ip(7)),
        Err(Error::ConnectionClose { .. })
    ));
}

#[test]
fn connect_returns_existing_peer() {
    let mut peers = registry();
    peers.add_connected_at(Peer::new(info(5, Direction::Outbound, 1)), 100).unwrap();
    let srv = server(peers);
    match srv.connect(&ip(5)) {
        Ok(ConnectAction::AlreadyConnected { peer }) => {
            assert_eq!(peer.info.total_difficulty, 1)
        },
        other => panic!("unexpected {:?}", other),
    }
}

#[test]
fn check_undesirable_refuses_over_cap_banned_and_known() {
    let mut peers = registry();
    for n in 1..=5u32 {
        peers.add_connected_at(Peer::new(info(n, Direction::Inbound, 1)), 100).unwrap();
    }
    let srv = server(peers);
    // inbound cap 4 + buffer 2 = 6: at 5 inbound a new one is still fine
    assert!(!srv.check_undesirable(&Some(ip(9))));
    // a known address is refused
    assert!(srv.check_undesirable(&Some(ip(1))));
    // a banned address is refused
    let mut srv = srv;
    srv.peers.add_banned_at(ip(9), p2p_core::types::ReasonForBan::BadHandshake, 50).unwrap();
    assert!(srv.check_undesirable(&Some(ip(9))));
    // over the cap everything is refused
    srv.peers.add_connected_at(Peer::new(info(6, Direction::Inbound, 1)), 100).unwrap();
    assert!(srv.check_undesirable(&None));
}

#[test]
fn handle_new_peer_registers_until_stopping() {
    let mut srv = server(registry());
    srv.handle_new_peer(Peer::new(info(1, Direction::Inbound, 1))).unwrap();
    assert_eq!(srv.peers.get_number_connected_peers(), 1);
    srv.stopped = true;
    assert!(srv.handle_new_peer(Peer::new(info(2, Direction::Inbound, 1))).is_err());
}

#[test]
fn stop_and_pause_wind_peers_down() {
    let mut srv = server(registry());
    srv.peers.add_connected_at(Peer::new(info(1, Direction::Inbound, 1)), 100).unwrap();
    srv.pause();
    assert_eq!(srv.peers.get_number_connected_peers(), 0);
    assert!(!srv.stopped);
    srv.peers.add_connected_at(Peer::new(info(2, Direction::Inbound, 1)), 100).unwrap();
    srv.stop();
    assert!(srv.stopped);
    assert_eq!(srv.peers.get_number_connected_peers(), 0);
    assert!(!srv.is_syncing());
}

#[test]
fn ipv4_mapped_ipv6_normalizes_to_ipv4() {
    let mapped = IpAddress::V6 {
        hi: 0,
        lo: 0xFFFF_0000_0000u64 | 0x7F00_0001u64,
    };
    assert_eq!(
        mapped.normalized(),
        IpAddress::V4 {
            octets: 0x7F00_0001
        }
    );
    let plain = IpAddress::V6 { hi: 1, lo: 2 };
    assert_eq!(plain.normalized(), plain);
    assert!(IpAddress::V4 {
        octets: 127 << 24 | 5
    }
    .is_loopback());
    assert!(IpAddress::V6 { hi: 0, lo: 1 }.is_loopback());
    assert!(!IpAddress::V4 {
        octets: 10 << 24 | 1
    }
    .is_loopback());
}

#[test]
fn addr_equality_is_by_value() {
    assert_eq!(onion("abc.onion"), onion("abc.onion"));
    assert_ne!(onion("abc.onion"), onion("ABC.onion"));
    assert_eq!(ip(1), ip(1));
    assert_ne!(ip(1), ip(2));
    assert_ne!(ip(1), onion("abc.onion"));
}

#[test]
fn server_new_starts_idle() {
    let srv = Server::new(
        PeerStore::new(),
        Capabilities { bits: 3 },
        config(),
        DummyAdapter {},
        true,
        9050,
        Some("me.onion".to_owned()),
    );
    assert_eq!(srv.peers.get_number_connected_peers(), 0);
    assert_eq!(srv.socks_port, 9050);
    assert!(!srv.stopped);
    assert!(!srv.is_syncing());
    assert_eq!(srv.self_onion_address.as_deref(), Some("me.onion"));
}

#[test]
fn request_batch_refuses_only_when_every_candidate_is_disqualified() {
    let mut tracker = HeaderSyncTracker::new();
    let a = ip(1);
    let b = ip(2);
    // both candidates take a batch; a third ask has nobody left
    assert!(tracker.request_batch(&vec![a.clone(), b.clone()], 0, 100).is_some());
    assert!(tracker.request_batch(&vec![a.clone(), b.clone()], 512, 100).is_some());
    assert!(tracker.request_batch(&vec![a.clone(), b.clone()], 1024, 100).is_none());
    // an answer frees the first peer again
    tracker.batch_received(&a, 0);
    let again = tracker.request_batch(&vec![a.clone(), b.clone()], 1024, 100).unwrap();
    assert_eq!(again, a);
}

#[test]
fn handle_new_peer_admits_below_the_cap() {
    let mut srv = server(registry());
    // caps: 4 inbound + 16 sync outbound + 10 headroom
    let r = srv.handle_new_peer(Peer::new(info(1, Direction::Inbound, 1)));
    assert!(r.is_ok());
    assert!(srv.peers.get_connected_peer(&ip(1)).is_some());
}
