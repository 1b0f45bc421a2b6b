use triad::network::discovery::dht::{
    calculate_distance, get_bucket_index, DHTEntry, DHTService, PeerCapabilities,
};
use triad::network::discovery::gossip::{
    GossipConfig, GossipDisposition, GossipMessage, GossipMessageType, GossipService,
};
use triad::network::discovery::quic_transport::{QUICConfig, QUICTransportService};
use triad::network::discovery::sharding::{
    CrossShardTransactionStatus, CrossShardTransactionType, ShardConfig, ShardStatus, ShardingService,
};
use triad::network::discovery::state_sync::{
    choose_metadata, request_shard_metadata, ShardSyncStatus, StateSyncConfig, StateSyncService,
};
use triad::network::error::NetworkError;
use triad::network::peer::PeerManager;
use triad::network::types::{PeerInfo, SocketAddress};

fn addr(ip: u128, port: u16) -> SocketAddress {
    SocketAddress { ip, is_ipv6: false, port }
}

fn caps(relay: bool, quic: bool) -> PeerCapabilities {
    PeerCapabilities { can_relay: relay, can_bootnode: false, supports_quic: quic, supports_sharding: false, max_tps: 10 }
}

fn entry(id: u128, last_seen: u64, quality: u8, relay: bool) -> DHTEntry {
    DHTEntry {
        peer_id: id,
        address: addr(0x7f000001, 4000),
        last_seen,
        distance: 0,
        quality_score: quality,
        capabilities: caps(relay, false),
    }
}

fn peer(id: u128, last_seen: u64) -> PeerInfo {
    PeerInfo::new(id, format!("p{}", id), addr(0x0a000000 + id, 9000), last_seen)
}

#[test]
fn distance_folds_bytes() {
    assert_eq!(calculate_distance(5, 5), 0);
    // The last byte (index 15) lands at bit 8 * (15 mod 8) = 56.
    assert_eq!(calculate_distance(0, 1), 1u64 << 56);
    // The first byte (index 0) lands at bit 0.
    assert_eq!(calculate_distance(1u128 << 120, 0), 1);
}

#[test]
fn distance_laws_hold() {
    let (a, b, c) = (0x0123_4567_89ab_cdef_0011_2233_4455_6677u128, 42u128, u128::MAX - 7);
    assert_eq!(calculate_distance(a, a), 0);
    assert_eq!(calculate_distance(a, b), calculate_distance(b, a));
    assert_eq!(calculate_distance(a, c), calculate_distance(a, b) ^ calculate_distance(b, c));
}

#[test]
fn bucket_index_is_highest_bit() {
    assert_eq!(get_bucket_index(0), 0);
    assert_eq!(get_bucket_index(1), 0);
    assert_eq!(get_bucket_index(2), 1);
    assert_eq!(get_bucket_index(255), 7);
    assert_eq!(get_bucket_index(u64::MAX), 63);
}

#[test]
fn dht_start_twice_fails() {
    let mut dht = DHTService::new(0);
    assert!(dht.start(10).is_ok());
    assert!(matches!(dht.start(11), Err(NetworkError::ServiceAlreadyStarted)));
    assert_eq!(dht.buckets.len(), 160);
}

#[test]
fn dht_added_peer_is_found() {
    let mut dht = DHTService::new(0);
    dht.start(0).unwrap();
    let id: u128 = 1u128 << 120;
    dht.add_peer(entry(id, 5, 50, true), 7).unwrap();
    let idx = get_bucket_index(calculate_distance(0, id));
    assert_eq!(dht.buckets[idx].entries.len(), 1);
    assert_eq!(dht.buckets[idx].last_refresh, 7);
    assert_eq!(dht.get_stats().total_peers, 1);
    let found = dht.lookup_peers(id, 5).unwrap();
    assert_eq!(found.len(), 1);
    assert_eq!(found[0].peer_id, id);
    assert_eq!(dht.get_stats().total_lookups, 1);
    assert_eq!(dht.get_stats().successful_lookups, 1);
}

#[test]
fn dht_lookup_orders_table_entries() {
    let mut dht = DHTService::new(0);
    dht.start(0).unwrap();
    for (id, q) in [(4u128, 10u8), (5, 90), (6, 50), (7, 70), (9, 20), (12, 60), (2, 30)] {
        dht.add_peer(entry(id, 1, q, false), 1).unwrap();
    }
    let target: u128 = 5;
    let found = dht.lookup_peers(target, 4).unwrap();
    assert!(found.len() <= 4 && !found.is_empty());
    let table = dht.get_routing_table();
    for e in &found {
        assert!(table.values().any(|b| b.iter().any(|x| x.peer_id == e.peer_id)));
    }
    for w in found.windows(2) {
        let (a, b) = (&w[0], &w[1]);
        let (da, db) = (calculate_distance(target, a.peer_id), calculate_distance(target, b.peer_id));
        assert!(da < db || (da == db && a.quality_score >= b.quality_score));
    }
    assert_eq!(found[0].peer_id, 5);
}

#[test]
fn dht_readd_replaces_entry() {
    let mut dht = DHTService::new(0);
    dht.start(0).unwrap();
    let id: u128 = 3;
    dht.add_peer(entry(id, 5, 50, false), 1).unwrap();
    dht.add_peer(entry(id, 9, 70, false), 2).unwrap();
    assert_eq!(dht.count_total_peers(), 1);
    let idx = get_bucket_index(calculate_distance(0, id));
    assert_eq!(dht.buckets[idx].entries[0].quality_score, 70);
}

#[test]
fn dht_full_bucket_replaces_oldest() {
    let mut dht = DHTService::new(0);
    dht.start(0).unwrap();
    // Byte 7 of an id lands at bit 56: ids (0x80 + k) << 64 all fall in bucket 63.
    let base: u128 = 0x80u128 << 64;
    for k in 0..20u128 {
        dht.add_peer(entry(base + (k << 64), 100 + k as u64, 10, false), 0).unwrap();
    }
    let idx = get_bucket_index(calculate_distance(0, base));
    assert_eq!(dht.buckets[idx].entries.len(), 20);
    dht.add_peer(entry(base + (50u128 << 64), 1, 99, false), 0).unwrap();
    let b = &dht.buckets[idx].entries;
    assert_eq!(b.len(), 20);
    assert_eq!(b[0].peer_id, base + (50u128 << 64));
    assert!(b.iter().all(|e| e.peer_id != base));
}

#[test]
fn dht_remove_and_expire() {
    let mut dht = DHTService::new(0);
    dht.start(0).unwrap();
    dht.add_peer(entry(7, 0, 1, false), 0).unwrap();
    dht.add_peer(entry(8, 400000, 1, false), 0).unwrap();
    dht.expire_stale_peers(400001);
    assert_eq!(dht.get_stats().total_peers, 1);
    dht.remove_peer(8).unwrap();
    assert_eq!(dht.count_total_peers(), 0);
}

#[test]
fn dht_capability_search_orders_by_quality() {
    let mut dht = DHTService::new(0);
    dht.start(0).unwrap();
    dht.add_peer(entry(1, 0, 10, true), 0).unwrap();
    dht.add_peer(entry(2, 0, 90, true), 0).unwrap();
    dht.add_peer(entry(3, 0, 50, false), 0).unwrap();
    let found = dht.find_peers_by_capability("relay").unwrap();
    assert_eq!(found.len(), 2);
    assert_eq!(found[0].peer_id, 2);
    assert_eq!(found[1].peer_id, 1);
    assert!(dht.find_peers_by_capability("teleport").unwrap().is_empty());
}

#[test]
fn dht_bucket_info_and_table() {
    let mut dht = DHTService::new(0);
    assert!(dht.get_bucket_info(0).is_none());
    dht.start(3).unwrap();
    dht.add_peer(entry(1, 0, 40, false), 5).unwrap();
    let idx = get_bucket_index(calculate_distance(0, 1));
    let info = dht.get_bucket_info(idx).unwrap();
    assert_eq!(info.peer_count, 1);
    assert_eq!(info.quality_total, 40);
    assert_eq!(dht.get_routing_table().len(), 160);
    dht.refresh_bucket(0, 99).unwrap();
    assert_eq!(dht.buckets[0].last_refresh, 99);
    dht.stop().unwrap();
    assert!(dht.buckets.is_empty());
}

#[test]
fn peer_manager_read_after_write() {
    let mut m = PeerManager::new();
    assert!(m.add_peer(peer(1, 0)));
    assert!(!m.add_peer(peer(1, 5)));
    assert_eq!(m.count(), 1);
    assert_eq!(m.get_peer(&1).unwrap().last_seen, 5);
    assert!(matches!(m.update_last_seen(&2, 9), Err(NetworkError::PeerNotFound(2))));
    m.update_last_seen(&1, 9).unwrap();
    assert_eq!(m.get_peer(&1).unwrap().last_seen, 9);
    assert_eq!(m.get_peer_address(&1).unwrap(), addr(0x0a000001, 9000));
    assert!(m.find_peer_by_address(&addr(0x0a000001, 9000)).is_some());
    assert!(m.find_peer_by_address(&addr(1, 1)).is_none());
}

#[test]
fn peer_manager_fresh_peer_survives_cleanup() {
    let mut m = PeerManager::new();
    m.add_peer(peer(1, 0));
    m.add_peer(peer(2, 0));
    m.update_last_seen(&2, 500000).unwrap();
    let removed = m.cleanup_inactive_peers(500000);
    assert_eq!(removed, vec![1]);
    assert_eq!(m.get_peer(&2).unwrap().last_seen, 500000);
    assert!(m.get_peer(&1).is_none());
}

#[test]
fn peer_manager_cleanup() {
    let mut m = PeerManager::new();
    m.add_peer(peer(1, 0));
    m.add_peer(peer(2, 100000));
    assert_eq!(m.get_active_peers(100001).len(), 1);
    let removed = m.cleanup_inactive_peers(100001);
    assert_eq!(removed, vec![1]);
    assert_eq!(m.count(), 1);
    assert!(m.remove_peer(&2).is_some());
    assert!(m.get_all_peers().is_empty());
}

fn gossip_message(id: u128, hops: u8, timestamp: u64) -> GossipMessage {
    GossipMessage {
        id,
        sender_id: 9,
        message_type: GossipMessageType::Transaction,
        payload: vec![1, 2, 3],
        timestamp,
        ttl: 3,
        hop_count: hops,
        signature: None,
        topic: "t".to_string(),
    }
}

#[test]
fn gossip_duplicate_is_ignored() {
    let mut g = GossipService::new(1, GossipConfig::default());
    let peers = vec![peer(2, 0), peer(3, 0)];
    let first = g.handle_message(gossip_message(10, 0, 1000), &peers, 5, 1000).unwrap();
    match first {
        GossipDisposition::Delivered { forward, to } => {
            assert_eq!(to, vec![2, 3]);
            assert_eq!(forward.id, 10);
            assert_eq!(forward.hop_count, 1);
            assert_eq!(forward.payload, vec![1, 2, 3]);
        }
        other => panic!("unexpected {:?}", other),
    }
    let cached = g.cached.get(&10).unwrap();
    assert_eq!((cached.hop_count, cached.sender_id, cached.payload.clone()), (0, 9, vec![1, 2, 3]));
    let again = g.handle_message(gossip_message(10, 0, 1000), &peers, 6, 1000).unwrap();
    assert!(matches!(again, GossipDisposition::Duplicate));
    assert_eq!(g.get_stats().messages_received, 1);
    assert_eq!(g.get_stats().messages_forwarded, 1);
}

#[test]
fn gossip_invalid_and_expired() {
    let mut g = GossipService::new(1, GossipConfig::default());
    let old = g.handle_message(gossip_message(11, 0, 0), &[], 0, 4000).unwrap();
    assert!(matches!(old, GossipDisposition::Invalid));
    let spent = g.handle_message(gossip_message(12, 3, 4000), &[], 0, 4000).unwrap();
    assert!(matches!(spent, GossipDisposition::Expired));
    assert_eq!(g.get_stats().messages_received, 0);
}

#[test]
fn gossip_fanout_bounded() {
    let peers: Vec<PeerInfo> = (0..20u128).map(|i| peer(i, 0)).collect();
    let chosen = GossipService::select_peers_for_fanout(&peers, 5);
    assert_eq!(chosen.len(), 5);
    let mut ids: Vec<u128> = chosen.iter().map(|p| p.id).collect();
    ids.sort();
    ids.dedup();
    assert_eq!(ids.len(), 5);
}

#[test]
fn gossip_publish_limits_size() {
    let mut g = GossipService::new(1, GossipConfig { max_message_size: 4, ..GossipConfig::default() });
    match g.publish(GossipMessageType::Block, vec![0; 5], "x".to_string(), &[], 0) {
        Err(NetworkError::Internal(t)) => assert_eq!(t, "Message too large: 5 bytes"),
        other => panic!("unexpected {:?}", other),
    }
    let (message, to) = g.publish(GossipMessageType::Block, vec![0; 4], "x".to_string(), &[peer(7, 0)], 0).unwrap();
    assert!(g.is_message_seen(&message.id));
    assert_eq!((message.sender_id, message.hop_count, message.ttl), (1, 0, GossipConfig::default().max_ttl));
    assert_eq!(message.payload, vec![0; 4]);
    assert_eq!(message.topic, "x");
    assert_eq!(to, vec![7]);
    assert_eq!(g.cached.get(&message.id).unwrap().payload, vec![0; 4]);
}

#[test]
fn gossip_cache_evicts_oldest() {
    let mut g = GossipService::new(1, GossipConfig::default());
    for i in 0..10001u128 {
        g.handle_message(gossip_message(i, 0, 100), &[], i as u64, 100).unwrap();
    }
    assert_eq!(g.message_cache.len(), 5000);
    assert!(g.is_message_seen(&10000));
    assert!(!g.is_message_seen(&0));
}

#[test]
fn gossip_topics_and_cache_expiry() {
    let mut g = GossipService::new(1, GossipConfig::default());
    g.subscribe("a".to_string()).unwrap();
    g.subscribe("a".to_string()).unwrap();
    g.subscribe("b".to_string()).unwrap();
    assert_eq!(g.get_active_topics(), vec!["a".to_string(), "b".to_string()]);
    g.unsubscribe("a").unwrap();
    assert_eq!(g.get_active_topics(), vec!["b".to_string()]);
    g.handle_message(gossip_message(1, 0, 10), &[], 0, 10).unwrap();
    g.expire_cache(300000);
    assert!(!g.is_message_seen(&1));
}

#[test]
fn sharding_assignment_runs() {
    let mut s = ShardingService::new(ShardConfig::default(), 100);
    s.start(&[1, 2, 3], 0).unwrap();
    // 16 shards over 3 peers: 5 each, shard 15 left to the local node.
    assert_eq!(s.get_node_shards(1), vec![0, 1, 2, 3, 4]);
    assert_eq!(s.get_node_shards(3), vec![10, 11, 12, 13, 14]);
    assert_eq!(s.get_local_shards(), vec![15]);
    let info = s.get_shard_info(15).unwrap();
    assert_eq!(info.name, "shard-15");
    assert_eq!(info.primary_node, Some(100));
    assert_eq!(info.status, ShardStatus::Active);
    assert!(s.is_node_responsible_for_shard(2, 7));
    assert!(!s.is_local_node_responsible_for_shard(0));
}

#[test]
fn sharding_start_partitions_shards() {
    let mut s = ShardingService::new(ShardConfig::default(), 100);
    s.start(&[7, 8, 9, 10, 11], 0).unwrap();
    let nodes = [7u128, 8, 9, 10, 11, 100];
    for shard in 0..16u32 {
        let owners: Vec<u128> = nodes.iter().copied().filter(|n| s.get_node_shards(*n).contains(&shard)).collect();
        assert_eq!(owners.len(), 1, "shard {}", shard);
        let info = s.get_shard_info(shard).unwrap();
        assert_eq!(info.nodes, vec![owners[0]]);
        assert_eq!(info.primary_node, Some(owners[0]));
        assert!(s.is_node_responsible_for_shard(owners[0], shard));
    }
    let total: usize = nodes.iter().map(|n| s.get_node_shards(*n).len()).sum();
    assert_eq!(total, 16);
}

#[test]
fn sharding_transactions_progress() {
    let mut s = ShardingService::new(ShardConfig::default(), 100);
    assert!(matches!(
        s.submit_cross_shard_transaction(0, 1, vec![], CrossShardTransactionType::StateSync),
        Err(NetworkError::ServiceAlreadyStarted)
    ));
    s.start(&[], 0).unwrap();
    match s.submit_cross_shard_transaction(0, 16, vec![], CrossShardTransactionType::StateSync) {
        Err(NetworkError::Internal(t)) => assert_eq!(t, "Invalid shard ID"),
        other => panic!("unexpected {:?}", other),
    }
    let id = s.submit_cross_shard_transaction(0, 1, vec![], CrossShardTransactionType::ContractCall).unwrap();
    s.process_cross_shard_transactions();
    assert!(matches!(s.get_transaction_status(id), Some(CrossShardTransactionStatus::ProcessingSource)));
    s.process_cross_shard_transactions();
    s.process_cross_shard_transactions();
    assert!(s.get_transaction_status(id).is_none());
    assert_eq!(s.get_stats().successful_cross_shard_tx, 1);
    assert_eq!(s.get_cross_shard_transaction_count(), 0);
}

#[test]
fn sharding_node_membership() {
    let mut s = ShardingService::new(ShardConfig::default(), 100);
    s.start(&[1], 0).unwrap();
    s.add_node_to_shard(5, 0, 9).unwrap();
    assert_eq!(s.get_shard_info(0).unwrap().nodes, vec![1, 5]);
    s.remove_node_from_shard(1, 0, 10).unwrap();
    let info = s.get_shard_info(0).unwrap();
    assert_eq!(info.primary_node, Some(5));
    s.remove_node_from_shard(5, 0, 11).unwrap();
    let info = s.get_shard_info(0).unwrap();
    assert_eq!(info.primary_node, None);
    assert_eq!(info.status, ShardStatus::Offline);
    assert!(s.get_node_shards(5).is_empty());
    s.update_shard_stats();
    assert_eq!(s.get_stats().total_shards, 16);
    assert_eq!(s.get_stats().active_shards, 15);
    assert!(s.trigger_rebalancing().is_ok());
}

#[test]
fn state_sync_lifecycle() {
    let mut s = StateSyncService::new(StateSyncConfig::default());
    assert!(matches!(s.sync_shard(1, 1, 0), Err(NetworkError::ServiceAlreadyStarted)));
    s.start().unwrap();
    s.sync_shard(1, 1, 0).unwrap();
    match s.sync_shard(1, 1, 0) {
        Err(NetworkError::Internal(t)) => assert_eq!(t, "Shard 1 is already syncing"),
        other => panic!("unexpected {:?}", other),
    }
    match s.sync_shard_internal(1, 1, &[]) {
        Err(NetworkError::Internal(t)) => assert_eq!(t, "No peers available for shard 1"),
        other => panic!("unexpected {:?}", other),
    }
    match s.get_shard_status(1) {
        Some(ShardSyncStatus::Failed { error, downloaded_chunks, total_chunks }) => {
            assert_eq!(error, "No peers available for shard 1");
            assert_eq!((downloaded_chunks, total_chunks), (0, 0));
        }
        other => panic!("unexpected {:?}", other),
    }
    assert_eq!(s.get_stats().failed_syncs, 1);
    s.sync_shard(1, 2, 5).unwrap();
    s.cancel_shard_sync(1).unwrap();
    match s.get_shard_status(1) {
        Some(ShardSyncStatus::Failed { error, .. }) => assert_eq!(error, "Cancelled by user"),
        other => panic!("unexpected {:?}", other),
    }
    assert_eq!(s.get_sync_status().len(), 1);
}

#[test]
fn state_sync_checks_hashes() {
    let mut s = StateSyncService::new(StateSyncConfig::default());
    s.start().unwrap();
    s.sync_shard(2, 1, 0).unwrap();
    // The fixed chunks are zeros and their leaf hashes zero: SHA-256 differs.
    match s.sync_shard_internal(2, 1, &[peer(1, 0)]) {
        Err(NetworkError::Internal(t)) => assert_eq!(t, "Chunk hash verification failed"),
        other => panic!("unexpected {:?}", other),
    }
    match s.get_shard_status(2) {
        Some(ShardSyncStatus::Failed { error, downloaded_chunks, total_chunks }) => {
            assert_eq!(error, "Chunk hash verification failed");
            assert_eq!(downloaded_chunks, 100);
            assert_eq!(total_chunks, 100);
        }
        other => panic!("unexpected {:?}", other),
    }
    assert_eq!(s.get_stats().failed_syncs, 1);
}

#[test]
fn state_sync_limits_concurrent_shards() {
    let mut config = StateSyncConfig::default();
    config.max_concurrent_shards = 1;
    let mut s = StateSyncService::new(config);
    s.start().unwrap();
    s.sync_shard(1, 1, 0).unwrap();
    // At the limit the request waits instead of starting.
    s.sync_shard(2, 9, 0).unwrap();
    assert!(s.get_shard_status(2).is_none());
    assert_eq!(s.waiting, vec![(2, 9)]);
    assert_eq!(s.active_syncs, vec![1]);
    assert_eq!(s.start_next_waiting(3), None);
    s.cancel_shard_sync(1).unwrap();
    assert_eq!(s.start_next_waiting(7), Some((2, 9)));
    assert!(s.waiting.is_empty());
    assert_eq!(s.active_syncs, vec![2]);
    match s.get_shard_status(2) {
        Some(ShardSyncStatus::InProgress { downloaded_chunks, total_chunks, start_time }) => {
            assert_eq!((downloaded_chunks, total_chunks, start_time), (0, 0, 7));
        }
        other => panic!("unexpected {:?}", other),
    }
    assert_eq!(s.start_next_waiting(8), None);
    s.sync_shard(3, 1, 0).unwrap();
    s.stop().unwrap();
    assert!(s.waiting.is_empty());
}

#[test]
fn state_sync_metadata_agreement() {
    let p = peer(1, 0);
    let a = request_shard_metadata(&p, 1, 1).unwrap();
    let mut b = request_shard_metadata(&p, 1, 1).unwrap();
    assert_eq!(choose_metadata(&vec![]).is_err(), true);
    b.total_chunks = 3;
    match choose_metadata(&vec![a, b]) {
        Err(NetworkError::Internal(t)) => assert_eq!(t, "Inconsistent shard metadata from peers"),
        other => panic!("unexpected {:?}", other),
    }
}

#[test]
fn quic_health_drops_idle() {
    let mut q = QUICTransportService::new(1, 9000, QUICConfig::default());
    q.start().unwrap();
    let stale = q.accept_connection(0);
    let fresh = q.accept_connection(200000);
    let dropped = q.check_connection_health(300001);
    assert_eq!(dropped, vec![stale]);
    assert_eq!(q.active_connections(), 1);
    assert_eq!(q.get_stats().active_connections, 1);
    assert_eq!(q.get_stats().total_connections, 2);
    match q.check_connection(stale) {
        Err(NetworkError::Internal(t)) => {
            assert_eq!(t, format!("No connection to peer {}", uuid::Uuid::from_u128(stale)))
        }
        other => panic!("unexpected {:?}", other),
    }
    assert!(q.check_connection(fresh).is_ok());
    let out = q.connect_to_peer(5);
    assert_eq!(q.active_connections(), 2);
    assert_eq!(q.get_stats().total_connections, 2);
    assert!(q.check_connection(out).is_ok());
    assert!(QUICTransportService::check_endpoint(false).is_err());
    q.record_sent(10);
    assert_eq!(q.get_stats().bytes_sent, 10);
    q.stop().unwrap();
    assert_eq!(q.active_connections(), 0);
}
