use triad::github::GitHubCodespaces;
use triad::network::discovery::compression::{CompressionConfig, CompressionService};
use triad::network::discovery::sharding::{CrossShardTransactionType, ShardConfig, ShardingService};

#[test]
fn test_github_codespaces_new() {
    let github = GitHubCodespaces::new(
        "test_token".to_string(),
        "test_owner".to_string(),
        "test_repo".to_string(),
    );

    assert_eq!(github.token, "test_token");
    assert_eq!(github.owner, "test_owner");
    assert_eq!(github.repo, "test_repo");
}

#[test]
fn test_compression_service() {
    let config = CompressionConfig::default();
    let mut service = CompressionService::new(config);
    service.start().unwrap();

    let test_data = b"Hello, world! This is a test message for compression.".repeat(100);

    let compressed = service.compress(&test_data).unwrap();
    assert!(compressed.data.len() < test_data.len());

    let decompressed = service.decompress(&compressed).unwrap();
    assert_eq!(decompressed, test_data);

    service.stop().unwrap();
}

/// Normalised byte entropy (0 = none, 1 = maximal).
fn entropy(data: &[u8]) -> f32 {
    if data.is_empty() {
        return 0.0;
    }
    let mut counts = [0u32; 256];
    for &b in data {
        counts[b as usize] += 1;
    }
    let len = data.len() as f32;
    let mut e = 0.0f32;
    for &c in &counts {
        if c > 0 {
            let p = c as f32 / len;
            e -= p * p.log2();
        }
    }
    e / 8.0
}

/// Share of matching 4-byte window comparisons.
fn repeat_share(data: &[u8]) -> f32 {
    let (matches, comparisons) = CompressionService::detect_repeat_patterns(data);
    if comparisons == 0 {
        0.0
    } else {
        matches as f32 / comparisons as f32
    }
}

#[test]
fn test_adaptive_compression() {
    let config = CompressionConfig { adaptive: true, ..Default::default() };
    let mut service = CompressionService::new(config);
    service.start().unwrap();

    let random_data: Vec<u8> = (0..1000).map(|_| rand::random::<u8>()).collect();
    let repeated_data = b"ABC".repeat(1000);

    let random_compressed = service
        .adaptive_compress(&random_data, entropy(&random_data) < 0.3, repeat_share(&random_data) > 0.7)
        .unwrap();
    let repeated_compressed = service
        .adaptive_compress(&repeated_data, entropy(&repeated_data) < 0.3, repeat_share(&repeated_data) > 0.7)
        .unwrap();

    let random_ratio = random_data.len() as f32 / random_compressed.data.len() as f32;
    let repeated_ratio = repeated_data.len() as f32 / repeated_compressed.data.len() as f32;

    assert!(repeated_ratio > random_ratio);

    service.stop().unwrap();
}

#[test]
fn test_sharding_service() {
    let config = ShardConfig::default();
    let local_node_id = uuid::Uuid::new_v4().as_u128();
    let mut service = ShardingService::new(config, local_node_id);

    service.start(&[], 0).unwrap();

    let local_shards = service.get_local_shards();
    assert!(!local_shards.is_empty());

    let tx_id = service
        .submit_cross_shard_transaction(0, 1, b"test data".to_vec(), CrossShardTransactionType::AssetTransfer)
        .unwrap();

    let status = service.get_transaction_status(tx_id);
    assert!(status.is_some());

    service.stop().unwrap();
}
