use triad::dag::Dag;
use triad::error_analysis::{
    behavior_evidence, causal_link_for, resolution_for, semantic_impact_for, system_affected_components, system_root_cause,
    system_solutions, ErrorCategory as SystemCategory, SemanticContextKind,
};
use triad::github::{bearer, codespace_url, failure_text, GitHubCodespaceManager, GitHubCodespaces};
use triad::network::discovery::compression::{
    CompressedData, CompressionAlgorithm, CompressionConfig, CompressionLevel, CompressionService, ProtobufService,
};
use triad::network::discovery::swarm_control::{
    agent_version, announced_addresses, flag_set, shard_topic, stop_outcome, tcp_port_setting, DiscoveryConfig,
    SwarmAction, SwarmEvent,
};
use triad::network::error::NetworkError;
use triad::network::error_analysis::{ErrorAnalyzer, ErrorCategory, ErrorContext, ErrorSeverity};
use triad::network::framing::{checked_be_length, decode_le_frame, encode_be_frame, encode_le_frame};
use triad::network::http::{peer_endpoint, ConsensusRequest, HttpClient, HttpMessage, HttpServer};
use triad::network::message::{broadcast_outcome, MessageService};
use triad::network::peer::PeerManager;
use triad::network::real_node::{addresses_to_dial, RealNetworkNode};
use triad::network::transport::{check_frame_header, read_failure, ConnectPlan, ReadFailure, TransportService};
use triad::network::types::{MessageType, NetworkEvent, PeerInfo, SocketAddress};
use triad::network::udp_discovery::{broadcast_address, next_discovery_port, DiscoveryService};
use triad::network::websocket_client::{collect_step, CollectStep, FrameKind, WebSocketClient};
use triad::sorting::stable_sort_by_key;
use triad::text::{contains_text, is_white_space, parse_u16, push_decimal, push_uuid, split_trimmed_nonempty};

fn addr(ip: u128, port: u16) -> SocketAddress {
    SocketAddress { ip, is_ipv6: false, port }
}

fn context(category: ErrorCategory, description: &str, timestamp: u64) -> ErrorContext {
    ErrorContext {
        timestamp,
        node_id: None,
        peer_id: None,
        category,
        severity: ErrorSeverity::High,
        description: description.to_string(),
        stack_trace: None,
        system_state: vec![],
    }
}

#[test]
fn root_cause_of_connection_errors() {
    let a = ErrorAnalyzer::new();
    let c = context(ErrorCategory::Connection, "bind: Address already in use", 0);
    let cause = a.determine_root_cause(&c);
    assert_eq!(cause, "Port is already used by another process");
    // The solutions look for "port is already used" in lower case: none match.
    assert!(a.find_possible_solutions(&c, &cause).is_empty());
    let refused = context(ErrorCategory::Connection, "Connection refused (os error 111)", 0);
    assert_eq!(a.determine_root_cause(&refused), "Remote node is unavailable or refuses connection");
    let other = context(ErrorCategory::Connection, "reset", 0);
    assert_eq!(a.determine_root_cause(&other), "Unknown connection problem");
    let proto = context(ErrorCategory::Protocol, "x", 0);
    assert_eq!(
        a.find_possible_solutions(&proto, "anything"),
        vec!["Update protocol version".to_string(), "Add backward compatibility support".to_string()]
    );
}

#[test]
fn error_recurrence_and_solutions() {
    let mut a = ErrorAnalyzer::new();
    let first = a.analyze_error(context(ErrorCategory::Resource, "out of memory", 10000), 10000);
    assert_eq!(first.recurrence_count, 0);
    assert!(first.related_errors.is_empty());
    let second = a.analyze_error(context(ErrorCategory::Resource, "out of memory", 10001), 10001);
    assert_eq!(second.recurrence_count, 1);
    assert_eq!(second.related_errors, vec![first.error_id]);
    assert_eq!(a.get_error_statistics(), vec![("Resource".to_string(), 2)]);
    assert_eq!(a.apply_solution(7, "x".to_string(), 0), Err("Error not found".to_string()));
    a.apply_solution(first.error_id, "restart".to_string(), 10500).unwrap();
    let stored = a.errors.get(&first.error_id).unwrap();
    assert_eq!(stored.resolution_time_secs, Some(500));
    let history = a.get_successful_solutions();
    assert_eq!(history.len(), 1);
    assert_eq!(history[0].1, vec!["restart".to_string()]);
}

#[test]
fn semantic_resolutions() {
    let (steps, outcome) = resolution_for(SemanticContextKind::ShardDistribution).unwrap();
    assert_eq!(steps.len(), 2);
    assert_eq!(steps[0].action, "Load redistribution between shards");
    assert_eq!(outcome, "Achievement of expected load distribution");
    assert!(resolution_for(SemanticContextKind::ConsensusState).is_none());
}

#[test]
fn semantic_impacts_and_causes() {
    let (affected, path, implications) = semantic_impact_for(SemanticContextKind::QuantumSuperposition);
    assert_eq!(affected, vec!["Quantum superposition".to_string(), "Probabilistic distribution".to_string()]);
    assert_eq!(path.len(), 3);
    assert_eq!(path[2], "Quantum operations");
    assert_eq!(implications[1], "Influence on consensus");
    let (affected, path, implications) = semantic_impact_for(SemanticContextKind::SystemState);
    assert_eq!(affected, vec!["General influence".to_string()]);
    assert!(path.is_empty());
    assert_eq!(implications, vec!["Unknown influence".to_string()]);
    let (cause, effect) = causal_link_for(SemanticContextKind::ShardDistribution).unwrap();
    assert_eq!(cause, "Uneven load distribution");
    assert_eq!(effect, "Deviation from expected load");
    assert!(causal_link_for(SemanticContextKind::QuantumDecoherence).is_none());
    assert_eq!(
        behavior_evidence("stable", "collapsed"),
        vec!["Expected behavior: stable".to_string(), "Actual behavior: collapsed".to_string()]
    );
}

#[test]
fn github_requests() {
    assert_eq!(codespace_url("abc", "/start"), "https://api.github.com/user/codespaces/abc/start");
    assert_eq!(bearer("t"), "Bearer t");
    assert_eq!(failure_text("Failed to stop codespace", "404 Not Found", "no"), "Failed to stop codespace: 404 Not Found - no");
    let plan = GitHubCodespaces::triad_network_plan();
    assert_eq!(plan.len(), 10);
    assert_eq!(plan[9], ("basicLinux32gb", "NorthEurope"));
    let names = vec!["triad-node-1".to_string(), "other".to_string(), "triad-node-2".to_string()];
    assert_eq!(GitHubCodespaces::triad_codespaces(&names), vec![0, 2]);
    let g = GitHubCodespaces::new("t".to_string(), "o".to_string(), "r".to_string());
    let req = g.create_request("m", "l");
    assert_eq!(req.idle_timeout_minutes, Some(480));
    assert_eq!(req.retention_period_minutes, Some(1440));
}

#[test]
fn codespace_manager_simulation() {
    let sim = GitHubCodespaceManager::new_simulation();
    assert!(sim.is_simulation());
    assert_eq!(sim.check_can_create(), Err("GitHub token not available - cannot create codespace".to_string()));
    let real = GitHubCodespaceManager::with_token("tok".to_string());
    assert!(!real.is_simulation());
    assert!(real.check_can_start().is_ok());
    assert_eq!(
        GitHubCodespaceManager::listed_codespace(Some("n"), None, Some(42)),
        Some(("42".to_string(), "n".to_string()))
    );
    assert_eq!(GitHubCodespaceManager::listed_codespace(Some(""), Some("x"), None), None);
    let request = real.node_codespace_request("node-7");
    assert_eq!(request.repository_id, 987166369);
    assert_eq!(request.machine, "basicLinux32gb");
    assert_eq!(request.location, "WestUs2");
    assert_eq!(request.idle_timeout_minutes, 30);
    assert_eq!(request.display_name, "node-7");
    assert_eq!(request.retention_period_minutes, 480);
    assert_eq!(request.git_ref, "main");
}

#[test]
fn websocket_urls_and_batches() {
    let c = WebSocketClient::new("n1".to_string(), "host:8080".to_string());
    assert_eq!(c.consensus_url(), "ws://host:8080/consensus");
    let s = WebSocketClient::new("n1".to_string(), "wss://h/x".to_string());
    assert_eq!(s.consensus_url(), "wss://h/x");
    let msgs = c.batch_messages(3, vec![vec![vec![1]], vec![vec![2]], vec![vec![3]]], &vec![7, 8]);
    assert_eq!(msgs.len(), 2);
    assert_eq!(msgs[1].shard_id, 8);
    assert_eq!(msgs[1].transactions, vec![vec![2u8]]);
    assert_eq!(msgs[0].message_type, "consensus");
    assert!(matches!(collect_step(FrameKind::Answer, 1, 2), CollectStep::Keep { done: true }));
    assert!(matches!(collect_step(FrameKind::Answer, 0, 2), CollectStep::Keep { done: false }));
    match collect_step(FrameKind::Close, 0, 1) {
        CollectStep::Fail(t) => assert_eq!(t, "WebSocket connection closed"),
        other => panic!("unexpected {:?}", other),
    }
    assert!(matches!(collect_step(FrameKind::End, 0, 1), CollectStep::Stop));
}

#[test]
fn discovery_settings() {
    assert!(flag_set(Some("1")));
    assert!(!flag_set(Some("true")));
    assert_eq!(tcp_port_setting(None), 4001);
    assert_eq!(tcp_port_setting(Some("+9000")), 9000);
    assert_eq!(tcp_port_setting(Some("70000")), 4001);
    assert_eq!(
        announced_addresses(" /ip4/1.2.3.4/tcp/1 ,, /dns/x/tcp/2 "),
        vec!["/ip4/1.2.3.4/tcp/1".to_string(), "/dns/x/tcp/2".to_string()]
    );
    assert_eq!(shard_topic(3), "triad-shard-3");
    assert_eq!(agent_version(None), "triad/dev");
    assert!(matches!(stop_outcome(true, false), Err(NetworkError::ShutdownFailed)));
}

#[test]
fn swarm_event_actions() {
    let cfg = DiscoveryConfig {
        node_name: "n".to_string(),
        tcp_port: 1,
        quic_port: 2,
        is_bootstrap: false,
        bootstrap_addr: Some("/ip4/1.1.1.1/tcp/1".to_string()),
        bootstrap_peer: Some(vec![9, 9]),
    };
    assert_eq!(cfg.dial_target(), Some("/ip4/1.1.1.1/tcp/1".to_string()));
    let acts = cfg.actions_for(SwarmEvent::ConnectionEstablished { peer: vec![9, 9] });
    assert!(matches!(&acts[..], [SwarmAction::ListenViaRelay { .. }]));
    assert!(cfg.actions_for(SwarmEvent::ConnectionEstablished { peer: vec![1] }).is_empty());
    let acts = cfg.actions_for(SwarmEvent::Identified {
        peer: vec![5],
        observed_addr: "o".to_string(),
        listen_addrs: vec!["a".to_string(), "b".to_string()],
    });
    assert_eq!(acts.len(), 3);
    match &acts[2] {
        SwarmAction::AddRoutingAddress { peer, addr } => {
            assert_eq!(peer, &vec![5u8]);
            assert_eq!(addr, "b");
        }
        other => panic!("unexpected {:?}", other),
    }
    let echo = cfg.actions_for(SwarmEvent::RequestReceived { peer: vec![1], data: vec![4, 2] });
    assert!(matches!(&echo[..], [SwarmAction::Respond(d)] if d == &vec![4u8, 2]));
}

#[test]
fn udp_discovery_decisions() {
    assert_eq!(next_discovery_port(23456), Some(23457));
    assert_eq!(next_discovery_port(23556), None);
    let b = broadcast_address(0xc0a80105);
    assert_eq!(b.ip, 0xc0a801ff);
    assert_eq!(b.port, 23456);
    let svc = DiscoveryService::new(1, "me".to_string(), 7000);
    let mut m = PeerManager::new();
    let local = addr(0x0a000001, 0);
    let from = addr(0x0a000002, 555);
    let new_peer = svc.handle_announcement(&mut m, local, from, svc.announcement_from(2, "you"), 3);
    assert_eq!(new_peer.unwrap().address, addr(0x0a000002, 7000));
    assert!(svc.handle_announcement(&mut m, local, from, svc.announcement_from(2, "you"), 4).is_none());
    assert!(svc.handle_announcement(&mut m, local, local, svc.announcement_from(3, "x"), 4).is_none());
    assert_eq!(m.count(), 1);
}

trait AnnouncementFrom {
    fn announcement_from(&self, id: u128, name: &str) -> triad::network::udp_discovery::DiscoveryMessage;
}

impl AnnouncementFrom for DiscoveryService {
    fn announcement_from(&self, id: u128, name: &str) -> triad::network::udp_discovery::DiscoveryMessage {
        let mut msg = self.announcement();
        msg.node_id = id;
        msg.node_name = name.to_string();
        msg
    }
}

#[test]
fn transport_decisions() {
    let mut m = PeerManager::new();
    m.add_peer(PeerInfo::new(5, "p".to_string(), addr(1, 2), 0));
    let mut t = TransportService::new(1, 9000);
    assert!(matches!(t.plan_connection(&m, 5), Ok(ConnectPlan::Connect(a)) if a == addr(1, 2)));
    assert!(matches!(t.plan_connection(&m, 6), Err(NetworkError::PeerNotFound(6))));
    t.register_connection(5, 77);
    assert!(matches!(t.plan_connection(&m, 5), Ok(ConnectPlan::Existing(77))));
    assert_eq!(TransportService::identify_incoming(&m, &addr(1, 2)), Some(5));
    assert_eq!(check_frame_header([0, 0, 1, 0]).unwrap(), 256);
    match check_frame_header([1, 0, 0, 0]) {
        Err(NetworkError::Internal(msg)) => assert!(msg.contains("16777216 > 10485760")),
        other => panic!("unexpected {:?}", other),
    }
    assert!(matches!(read_failure(5, true), ReadFailure::Closed(NetworkEvent::PeerDisconnected(5))));
    assert!(matches!(read_failure(5, false), ReadFailure::Failed));
}

#[test]
fn real_node_bookkeeping() {
    let mut n = RealNetworkNode::new("n".to_string(), 8080, 0, None, None, Some("x"));
    assert_eq!(n.public_url, "localhost:8080");
    assert_eq!(n.node_name, "n");
    assert_eq!(n.quic_port, 8081);
    assert!(n.start());
    assert!(!n.start());
    let p = PeerInfo::new(1, "a".to_string(), addr(1, 1), 0);
    assert!(n.add_peer(p.clone()));
    assert!(!n.add_peer(p.clone()));
    n.on_event(NetworkEvent::PeerConnected(p));
    assert_eq!(n.peers.len(), 2);
    assert_eq!(RealNetworkNode::peer_name_for("h:1"), "peer-h:1");
    let addrs = vec!["a".to_string(), "b".to_string(), "c".to_string()];
    assert_eq!(addresses_to_dial(&addrs, &vec!["b".to_string()]), vec![0, 2]);
    assert!(n.stop());
}

#[test]
fn http_answers() {
    let mut s = HttpServer::new("n".to_string(), 80, 2);
    s.add_peer(PeerInfo::new(1, "a".to_string(), addr(1, 1), 0));
    s.add_peer(PeerInfo::new(1, "a".to_string(), addr(1, 1), 0));
    let h = s.health();
    assert_eq!(h.status, "healthy");
    assert_eq!(h.active_peers, 1);
    let r = s.consensus(&ConsensusRequest { round: 4, transactions: vec![vec![1], vec![2]], shard_id: 9 });
    assert_eq!((r.round, r.processed_count, r.shard_id, r.success), (4, 2, 2, true));
    s.enqueue_message(HttpMessage {
        sender_id: "x".to_string(),
        message_type: "t".to_string(),
        payload: vec![],
        target_shard: None,
        timestamp: 0,
    });
    assert_eq!(s.message_queue.len(), 1);
}

#[test]
fn http_client_requests() {
    assert_eq!(peer_endpoint("10.0.0.2:8080", "/health"), "http://10.0.0.2:8080/health");
    let client = HttpClient::new("node-1".to_string(), "10.0.0.1:8080".to_string());
    let message = client.outgoing_message("ping".to_string(), vec![1, 2], Some(3));
    assert_eq!(message.sender_id, "node-1");
    assert_eq!(message.message_type, "ping");
    assert_eq!(message.payload, vec![1, 2]);
    assert_eq!(message.target_shard, Some(3));
    assert!(message.timestamp > 0);
    let request = HttpClient::consensus_request(7, vec![vec![9]], 2);
    assert_eq!((request.round, request.shard_id, request.transactions.len()), (7, 2, 1));
}

#[test]
fn messages_and_broadcast_outcome() {
    let svc = MessageService::new(3);
    let m = svc.message_to_peer(4, MessageType::Error("e".to_string()), vec![1]);
    assert_eq!((m.sender_id, m.recipient_id), (3, Some(4)));
    assert!(svc.broadcast_message(MessageType::Consensus(vec![]), vec![]).recipient_id.is_none());
    assert!(broadcast_outcome(vec![Ok(()), Ok(())]).is_ok());
    let r = broadcast_outcome(vec![Ok(()), Err(NetworkError::PeerNotFound(1)), Err(NetworkError::Timeout)]);
    assert!(matches!(r, Err(NetworkError::PeerNotFound(1))));
}

#[test]
fn text_helpers() {
    assert_eq!(parse_u16("65535"), Some(65535));
    assert_eq!(parse_u16("65536"), None);
    assert_eq!(parse_u16(""), None);
    assert_eq!(parse_u16("+"), None);
    assert_eq!(parse_u16("1a"), None);
    assert!(contains_text("hello world", "o w"));
    assert!(!contains_text("hi", "high"));
    assert_eq!(split_trimmed_nonempty(" a , b,", ','), vec!["a".to_string(), "b".to_string()]);
    let mut v = Vec::new();
    push_decimal(&mut v, 1207);
    assert_eq!(v.iter().collect::<String>(), "1207");
    let mut u = Vec::new();
    push_uuid(&mut u, 0x0123456789abcdef0011223344556677);
    assert_eq!(u.iter().collect::<String>(), "01234567-89ab-cdef-0011-223344556677");
}

#[test]
fn frames_round_trip() {
    let f = encode_le_frame(&[9, 8, 7]);
    assert_eq!(f, vec![3, 0, 0, 0, 9, 8, 7]);
    let mut g = f.clone();
    g.push(1);
    assert_eq!(decode_le_frame(&g), Some((vec![9, 8, 7], 7)));
    assert_eq!(decode_le_frame(&[5, 0, 0, 0, 1]), None);
    assert_eq!(encode_be_frame(&[1, 2]), Some(vec![0, 0, 0, 2, 1, 2]));
    assert_eq!(checked_be_length([0, 0xa0, 0, 1]), None);
}

#[test]
fn dag_structure() {
    let mut d = Dag::new();
    d.add_transaction(1, vec![]);
    d.add_transaction(2, vec![1]);
    d.add_transaction(3, vec![2, 1]);
    assert!(!d.has_cycle());
    assert_eq!(d.depth(), 3);
    let mut kids = d.children(&1);
    kids.sort();
    assert_eq!(kids, vec![2, 3]);
    assert_eq!(d.parents(&3), Some(&vec![2, 1]));
    d.add_transaction(1, vec![3]);
    assert!(d.has_cycle());
}

#[test]
fn stable_sort_keeps_ties() {
    let sorted = stable_sort_by_key(vec![(2, 'a'), (1, 'b'), (2, 'c'), (0, 'd')]);
    assert_eq!(sorted, vec![(0, 'd'), (1, 'b'), (2, 'a'), (2, 'c')]);
}

#[test]
fn compression_levels_and_packing() {
    assert!(matches!(CompressionLevel::new(23), Err(NetworkError::Internal(m)) if m == "Invalid compression level"));
    assert!(CompressionLevel::new(255).is_err());
    assert_eq!(CompressionLevel::new(0).unwrap().value(), 0);
    assert_eq!(CompressionLevel::new(22).unwrap().value(), 22);
    assert_eq!(CompressionLevel::max().value(), 22);
    assert_eq!(CompressionLevel::min().value(), 0);
    assert_eq!(CompressionLevel::default().value(), 3);
    let mut plain = ProtobufService::new(false);
    assert_eq!(plain.pack_serialized(vec![1, 2, 3]).unwrap(), vec![1, 2, 3]);
    assert_eq!(plain.unpack_serialized(&[0, 1]).unwrap(), vec![0, 1]);
    let mut packed = ProtobufService::new(true);
    assert!(packed.compression.running);
    // Below the minimum size the bytes are packed uncompressed.
    let small = packed.pack_serialized(vec![1, 2, 3]).unwrap();
    assert_eq!(small.len(), 17);
    assert_eq!(&small[..10], &[0, 0, 3, 0, 0, 0, 0, 0, 0, 0]);
    assert_eq!(&small[14..], &[1, 2, 3]);
    assert_eq!(packed.unpack_serialized(&small).unwrap(), vec![1, 2, 3]);
    match packed.unpack_serialized(&[0, 1]) {
        Err(NetworkError::Internal(t)) => assert_eq!(t, "Malformed compressed payload"),
        other => panic!("unexpected {:?}", other),
    }
}

#[test]
fn packed_payload_round_trip() {
    let mut service = ProtobufService::new(true);
    let payload = b"serialized message body ".repeat(64);
    let packed = service.pack_serialized(payload.clone()).unwrap();
    // zstd at level 3, with the original size in the header.
    assert_eq!(packed[0], 1);
    assert_eq!(packed[1], 3);
    let size = payload.len() as u32;
    assert_eq!(&packed[2..6], &size.to_le_bytes());
    assert_eq!(&packed[6..10], &[0, 0, 0, 0]);
    assert!(packed.len() < payload.len());
    assert_eq!(service.unpack_serialized(&packed).unwrap(), payload);
    let record = CompressedData::from_bytes(&packed).unwrap();
    assert_eq!(record.original_size, payload.len());
    assert_eq!(record.to_bytes(), packed);
    // A damaged checksum is caught.
    let mut damaged = packed.clone();
    damaged[10] ^= 0xff;
    match service.unpack_serialized(&damaged) {
        Err(NetworkError::Internal(t)) => assert_eq!(t, "Checksum verification failed"),
        other => panic!("unexpected {:?}", other),
    }
    // A recorded size that does not match is caught.
    let mut resized = packed.clone();
    resized[2] = resized[2].wrapping_add(1);
    match service.unpack_serialized(&resized) {
        Err(NetworkError::Internal(t)) => assert!(t.starts_with("Decompressed size ")),
        other => panic!("unexpected {:?}", other),
    }
    let mut off = ProtobufService::new(false);
    let same = off.pack_serialized(payload.clone()).unwrap();
    assert_eq!(same, payload);
    assert_eq!(off.unpack_serialized(&same).unwrap(), payload);
}

fn started_service(algorithm: CompressionAlgorithm, level: u8) -> CompressionService {
    let mut config = CompressionConfig::default();
    config.algorithm = algorithm;
    config.level = CompressionLevel::new(level).unwrap();
    config.min_size = 16;
    config.max_time_ms = 60000;
    config.adaptive = false;
    let mut service = CompressionService::new(config);
    service.start().unwrap();
    service
}

#[test]
fn every_algorithm_round_trips() {
    let data: Vec<u8> = b"round trip through every codec, round trip through every codec".repeat(20);
    for (algorithm, code) in [
        (CompressionAlgorithm::Uncompressed, 0u8),
        (CompressionAlgorithm::Zstd, 1),
        (CompressionAlgorithm::Lz4, 2),
        (CompressionAlgorithm::Brotli, 3),
    ] {
        let mut service = started_service(algorithm, 9);
        let compressed = service.compress(&data).unwrap();
        assert_eq!(compressed.algorithm, code);
        if code != 0 {
            assert!(compressed.data.len() < data.len());
        }
        assert_eq!(service.decompress(&compressed).unwrap(), data);
    }
}

#[test]
fn decompress_error_texts() {
    let mut service = started_service(CompressionAlgorithm::Zstd, 3);
    let unknown = CompressedData { algorithm: 9, level: 0, original_size: 0, data: vec![], checksum: 0 };
    assert!(matches!(service.decompress(&unknown), Err(NetworkError::Internal(t)) if t == "Unknown compression algorithm"));
    let short = CompressedData { algorithm: 0, level: 0, original_size: 5, data: b"abc".to_vec(), checksum: 0 };
    assert!(matches!(service.decompress(&short),
        Err(NetworkError::Internal(t)) if t == "Decompressed size 3 doesn't match original size 5"));
    let mut wrong = service.compress(b"twenty bytes of data").unwrap();
    wrong.checksum = wrong.checksum.wrapping_add(1);
    assert!(matches!(service.decompress(&wrong), Err(NetworkError::Internal(t)) if t == "Checksum verification failed"));
    let broken = CompressedData { algorithm: 1, level: 3, original_size: 3, data: vec![1, 2, 3], checksum: 0 };
    assert!(matches!(service.decompress(&broken),
        Err(NetworkError::Internal(t)) if t.starts_with("zstd decompression failed: ")));
    let mut stopped = CompressionService::new(CompressionConfig::default());
    assert!(matches!(stopped.compress(b"abc"), Err(NetworkError::ServiceNotStarted)));
    assert!(matches!(stopped.decompress(&unknown), Err(NetworkError::ServiceNotStarted)));
}

#[test]
fn system_error_causes_and_solutions() {
    let cause = system_root_cause(SystemCategory::NetworkConnection, "bind: Address already in use", None, None);
    assert_eq!(cause, "Порт уже используется другим процессом");
    // The solutions look for the phrase in lower case, which the capitalised cause does not contain.
    assert!(system_solutions(SystemCategory::NetworkConnection, &cause).is_empty());
    assert_eq!(system_solutions(SystemCategory::NetworkConnection, "порт уже используется").len(), 3);
    assert_eq!(
        system_root_cause(SystemCategory::NetworkConnection, "Connection refused (os error 111)", None, None),
        "Удаленный узел недоступен или отклоняет соединение"
    );
    assert_eq!(
        system_root_cause(SystemCategory::QuantumState, "", Some(true), None),
        "Некорректное квантовое состояние: обнаружены недопустимые значения"
    );
    assert_eq!(
        system_root_cause(SystemCategory::QuantumState, "", None, None),
        "Отсутствует информация о квантовом состоянии"
    );
    assert_eq!(
        system_root_cause(SystemCategory::ShardConsensus, "", None, Some(true)),
        "Конфликт консенсуса между шардами"
    );
    assert_eq!(system_root_cause(SystemCategory::SystemSecurity, "", None, None), "Неизвестная причина ошибки");
    let solutions = system_solutions(SystemCategory::ShardConsensus, "x");
    assert_eq!(solutions[0], "Перезапустить процесс консенсуса");
    assert_eq!(system_solutions(SystemCategory::Unknown, "x").len(), 2);
    assert_eq!(system_affected_components(SystemCategory::QuantumState), vec!["Quantum".to_string(), "Consensus".to_string()]);
}

#[test]
fn white_space_matches_std() {
    for n in 0u32..0x11000 {
        if let Some(c) = char::from_u32(n) {
            assert_eq!(is_white_space(c), c.is_whitespace(), "code point {:x}", n);
        }
    }
}
