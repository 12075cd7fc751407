use netfile_core::auth::AuthManager;
use netfile_core::compression::{Compressor, is_compressible, choose_chunk_payload};
use netfile_core::config::{
    default_broadcast_interval, default_chunk_size, default_max_concurrent, default_require_auth,
    generate_instance_id, generate_random_name, random_name_from_seed, Config,
};

#[test]
fn test_hash_password() {
    let password = "test_password";
    let hash1 = AuthManager::hash_password(password);
    let hash2 = AuthManager::hash_password(password);

    assert_eq!(hash1, hash2);
    assert_eq!(hash1.len(), 64);
}

#[test]
fn test_verify_password() {
    let password = "my_secret";
    let hash = AuthManager::hash_password(password);

    let mut config = Config::default();
    config.security.password = hash;

    let auth_manager = AuthManager::new(config);

    assert!(auth_manager.verify_password(password));
    assert!(!auth_manager.verify_password("wrong_password"));
}

#[test]
fn test_device_authorization() {
    let config = Config::default();
    let mut auth_manager = AuthManager::new(config);

    let device_id = "device-123";

    assert!(auth_manager.is_device_allowed(device_id));

    auth_manager.add_allowed_device(device_id.to_string());
    assert!(auth_manager.is_device_allowed(device_id));

    auth_manager.remove_allowed_device(device_id);
    assert!(auth_manager.is_device_allowed(device_id));
}

#[test]
fn test_list_allowed_devices() {
    let config = Config::default();
    let mut auth_manager = AuthManager::new(config);

    auth_manager.add_allowed_device("device1".to_string());
    auth_manager.add_allowed_device("device2".to_string());
    auth_manager.add_allowed_device("device3".to_string());

    let devices = auth_manager.list_allowed_devices();
    assert_eq!(devices.len(), 3);
    assert!(devices.contains(&"device1".to_string()));
    assert!(devices.contains(&"device2".to_string()));
    assert!(devices.contains(&"device3".to_string()));
}

#[test]
fn allow_list_restricts_other_devices() {
    let mut auth_manager = AuthManager::new(Config::default());
    auth_manager.add_allowed_device("device-a".to_string());
    assert!(auth_manager.is_device_allowed("device-a"));
    assert!(!auth_manager.is_device_allowed("device-b"));
    auth_manager.add_allowed_device("device-a".to_string());
    assert_eq!(auth_manager.list_allowed_devices().len(), 1);
}

#[test]
fn hash_password_is_lower_hex_sha256() {
    // SHA-256 of "abc".
    assert_eq!(
        AuthManager::hash_password("abc"),
        "ba7816bf8f01cfea414140de5dae2223b00361a396177a9cb410ff61f20015ad"
    );
}

#[test]
fn empty_password_accepts_anything() {
    let auth_manager = AuthManager::new(Config::default());
    assert!(auth_manager.verify_password("whatever"));
}

#[test]
fn test_compress_decompress() {
    let original = b"Hello, World! This is a test string for compression. Hello, World! This is a test string for compression. Hello, World! This is a test string for compression.";
    let compressed = Compressor::compress(original).unwrap();
    let decompressed = Compressor::decompress(&compressed).unwrap();

    assert_eq!(original.as_slice(), decompressed.as_slice());
}

#[test]
fn test_compress_large_data() {
    let original = vec![b'A'; 10000];
    let compressed = Compressor::compress(&original).unwrap();
    let decompressed = Compressor::decompress(&compressed).unwrap();

    assert_eq!(original, decompressed);
    assert!(compressed.len() < original.len());
}

#[test]
fn test_compress_empty_data() {
    let original = b"";
    let compressed = Compressor::compress(original).unwrap();
    let decompressed = Compressor::decompress(&compressed).unwrap();

    assert_eq!(original.as_slice(), decompressed.as_slice());
}

#[test]
fn test_compress_random_data() {
    let original: Vec<u8> = (0..1000).map(|i| (i % 256) as u8).collect();
    let compressed = Compressor::compress(&original).unwrap();
    let decompressed = Compressor::decompress(&compressed).unwrap();

    assert_eq!(original, decompressed);
}

#[test]
fn test_estimate_compressed_size() {
    assert_eq!(Compressor::estimate_compressed_size(1000), 600);
    assert_eq!(Compressor::estimate_compressed_size(10000), 6000);
    assert_eq!(Compressor::estimate_compressed_size(0), 0);
}

#[test]
fn estimate_rounds_down() {
    assert_eq!(Compressor::estimate_compressed_size(7), 4);
    assert_eq!(Compressor::estimate_compressed_size(1), 0);
}

#[test]
fn decompress_rejects_garbage() {
    assert!(Compressor::decompress(b"definitely not zstd").is_err());
}

#[test]
fn compressible_by_extension() {
    assert!(is_compressible("notes.txt"));
    assert!(is_compressible("archive"));
    assert!(!is_compressible("movie.MP4"));
    assert!(!is_compressible("photo.jpeg"));
    assert!(!is_compressible("bundle.tar.gz"));
}

#[test]
fn chunk_payload_compresses_only_when_smaller() {
    let data = vec![b'z'; 4096];
    let (payload, compressed) = choose_chunk_payload(true, "log.txt", data.clone());
    assert!(compressed);
    assert!(payload.len() < data.len());
    assert_eq!(Compressor::decompress(&payload).unwrap(), data);

    let (payload, compressed) = choose_chunk_payload(false, "log.txt", data.clone());
    assert!(!compressed);
    assert_eq!(payload, data);

    let (payload, compressed) = choose_chunk_payload(true, "clip.mp4", data.clone());
    assert!(!compressed);
    assert_eq!(payload, data);

    let small = vec![b'z'; 1024];
    let (payload, compressed) = choose_chunk_payload(true, "log.txt", small.clone());
    assert!(!compressed);
    assert_eq!(payload, small);
}

#[test]
fn test_config_default() {
    let config = Config::default();

    assert!(!config.instance.instance_id.is_empty());
    assert!(!config.instance.instance_name.is_empty());
    assert!(!config.instance.device_name.is_empty());

    assert_eq!(config.network.discovery_port, 0);
    assert_eq!(config.network.transfer_port, 0);
    assert_eq!(config.network.broadcast_interval, 5);

    assert_eq!(config.transfer.chunk_size, 1048576);
    assert_eq!(config.transfer.max_concurrent, 3);
    assert!(!config.transfer.enable_compression);

    assert!(config.security.require_auth);
    assert!(config.security.password.is_empty());
    assert!(config.security.allowed_devices.is_empty());
    assert!(!config.security.enable_tls);
}

#[test]
fn documented_configuration_defaults() {
    let config = Config::default();
    assert!(config.network.signal_server_addr.is_empty());
    assert!(config.network.iroh_relay_url.is_empty());
    assert!(config.network.stun_servers.is_empty());
    assert!(config.transfer.download_dir.is_empty());
    assert_eq!(config.transfer.speed_limit_mbps, 0);
    assert!(config.transfer.require_confirmation);
    assert_eq!(config.transfer.iroh_stream_count, 4);
    assert_eq!(config.transfer.quic_stream_window_mb, 32);
    assert_eq!(config.transfer.history_page_size, 20);
    assert!(!config.transfer.enable_sharing);
    assert!(config.transfer.sharing_require_confirm);
}

#[test]
fn test_instance_id_generation() {
    let id1 = generate_instance_id();
    let id2 = generate_instance_id();

    assert_ne!(id1, id2);
    assert_eq!(id1.len(), 36);
}

#[test]
fn test_default_values() {
    assert_eq!(default_chunk_size(), 1048576);
    assert_eq!(default_max_concurrent(), 3);
    assert_eq!(default_broadcast_interval(), 5);
    assert!(default_require_auth());
}

#[test]
fn random_names_join_a_title_and_a_name() {
    assert_eq!(random_name_from_seed(0), "战神萧炎");
    assert_eq!(random_name_from_seed(61), "龙王秦朗");
    assert!(!generate_random_name().is_empty());
}
