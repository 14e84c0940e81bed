//! The periodic peer-history task: snapshots, updates, evictions and
//! its statistics.

use rsnode::peer_history::{PeerHistory, PeerHistoryConfig};
use rsnode::stats::{DetailType, Direction, Stats, StatType};
use rsnode::store::{EndpointKey, LmdbEnv, LmdbPeerStore};

fn create_test_time() -> u64 {
    1_000_000
}

fn create_test_endpoint() -> EndpointKey {
    EndpointKey::new(
        [0, 0, 0, 0, 0, 0, 0, 0, 0, 0, 0xff, 0xff, 10, 0, 0, 1],
        1234,
    )
}

fn parse_endpoint(last_octet: u8, port: u16) -> EndpointKey {
    EndpointKey::new(
        [0, 0, 0, 0, 0, 0, 0, 0, 0, 0, 0xff, 0xff, 10, 0, 0, last_octet],
        port,
    )
}

/// Runs the task once over the given live peers and pre-stored
/// entries; returns (final entries, stats).
fn run_peer_history(
    now: u64,
    open_channels: Vec<EndpointKey>,
    already_stored: Vec<(EndpointKey, u64)>,
) -> (Vec<(EndpointKey, u64)>, Stats) {
    let mut env = LmdbEnv::new();
    let mut store = LmdbPeerStore::new(&mut env);
    for (endpoint, time) in already_stored {
        store.put(&endpoint, time);
    }
    let mut stats = Stats::new();
    let history = PeerHistory::new(3600);
    history.run_once(&mut store, &mut stats, &open_channels, now);
    (store.begin(), stats)
}

#[test]
fn config_defaults() {
    let config = PeerHistoryConfig::default();
    assert_eq!(config.erase_cutoff, 3600);
    assert_eq!(config.check_interval, 15);
}

#[test]
fn no_peers() {
    let (written, _) = run_peer_history(create_test_time(), Vec::new(), Vec::new());
    assert!(written.is_empty());
}

#[test]
fn write_one_peer() {
    let now = create_test_time();
    let endpoint = create_test_endpoint();
    let (written, _) = run_peer_history(now, vec![endpoint], Vec::new());
    assert_eq!(written.len(), 1);
    assert_eq!(written[0].0, endpoint);
    assert_eq!(written[0].1, now);
}

#[test]
fn write_multiple_peers() {
    let endpoint1 = parse_endpoint(1, 1111);
    let endpoint2 = parse_endpoint(2, 2222);
    let endpoint3 = parse_endpoint(3, 3333);
    let now = create_test_time();
    let (written, _) = run_peer_history(
        now,
        vec![endpoint1, endpoint2, endpoint3],
        Vec::new(),
    );
    assert_eq!(written.len(), 3);
    for (_, time) in &written {
        assert_eq!(*time, now);
    }
    assert!(written.iter().any(|(e, _)| *e == endpoint1));
    assert!(written.iter().any(|(e, _)| *e == endpoint2));
    assert!(written.iter().any(|(e, _)| *e == endpoint3));
}

#[test]
fn update_peer() {
    let endpoint = parse_endpoint(1, 1234);
    let now = create_test_time();
    let (written, _) = run_peer_history(now, vec![endpoint], vec![(endpoint, now)]);
    assert_eq!(written.len(), 1);
    assert_eq!(written[0].0, endpoint);
    assert_eq!(written[0].1, now);
}

#[test]
fn inc_stats_when_peer_inserted() {
    let endpoint = create_test_endpoint();
    let (_, stats) = run_peer_history(create_test_time(), vec![endpoint], Vec::new());
    assert_eq!(
        stats.count(StatType::PeerHistory, DetailType::Inserted, Direction::In),
        1
    );
    assert_eq!(
        stats.count(StatType::PeerHistory, DetailType::Updated, Direction::In),
        0
    );
}

#[test]
fn inc_stats_when_peer_updated() {
    let endpoint = create_test_endpoint();
    let (_, stats) = run_peer_history(
        create_test_time(),
        vec![endpoint],
        vec![(endpoint, create_test_time())],
    );
    assert_eq!(
        stats.count(StatType::PeerHistory, DetailType::Inserted, Direction::In),
        0
    );
    assert_eq!(
        stats.count(StatType::PeerHistory, DetailType::Updated, Direction::In),
        1
    );
}

#[test]
fn erase_entries_older_than_cutoff() {
    let endpoint = create_test_endpoint();
    let now = create_test_time();
    let (written, _) = run_peer_history(now, Vec::new(), vec![(endpoint, now - 60 * 61)]);
    assert!(written.is_empty());
}

#[test]
fn erase_entries_newer_than_now() {
    let endpoint = create_test_endpoint();
    let now = create_test_time();
    let (written, _) = run_peer_history(now, Vec::new(), vec![(endpoint, now + 60 * 61)]);
    assert!(written.is_empty());
}

#[test]
fn inc_loop_stats() {
    let (_, stats) = run_peer_history(create_test_time(), Vec::new(), Vec::new());
    assert_eq!(
        stats.count(StatType::PeerHistory, DetailType::Loop, Direction::In),
        1
    );
}

#[test]
fn run_twice_is_idempotent() {
    // Running the task twice with identical inputs leaves the store
    // exactly as after the first run.
    let mut env = LmdbEnv::new();
    let mut store = LmdbPeerStore::new(&mut env);
    let now = create_test_time();
    let live = vec![parse_endpoint(1, 1111), parse_endpoint(2, 2222)];
    store.put(&parse_endpoint(3, 3333), now - 60 * 61);
    store.put(&parse_endpoint(4, 4444), now - 10);
    let mut stats = Stats::new();
    let history = PeerHistory::new(3600);
    history.run_once(&mut store, &mut stats, &live, now);
    let after_first = store.begin();
    history.run_once(&mut store, &mut stats, &live, now);
    let after_second = store.begin();
    assert_eq!(after_first.len(), after_second.len());
    for i in 0..after_first.len() {
        assert_eq!(after_first[i].0, after_second[i].0);
        assert_eq!(after_first[i].1, after_second[i].1);
    }
    // The stale entry left; the fresh and live entries stayed.
    assert_eq!(after_first.len(), 3);
}
