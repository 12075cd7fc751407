use netfile_core::message_store::{compose_text_message, text_message_parts, text_message_received};
use netfile_core::protocol::{Message, TextMessage};
use netfile_core::logs::old_logs;
use netfile_core::config::{config_path_in, default_device_name, device_name_or_unknown};
use netfile_core::digest::{calculate_file_hash, compute_file_sha256, sha256_hex};
use netfile_core::message_store::CountIndex;
use netfile_core::config::Config;
use netfile_core::message_store::{
    assign_seq, conversation_file, count_jsonl, delta_start, incoming_message, jsonl_records, next_count,
    normalize_messages, serialize_jsonl, ConversationFile, MessageStore,
};
use netfile_core::paths::{file_name, join_path};
use netfile_core::settings::{apply_setting, parse_uint, IntError, SettingError};
use netfile_core::stun::{MappedAddr, NatType, StunClient, StunError};
use netfile_core::ui::{is_lan_addr, transfer_routes, IpAddress, Tab, TransferRoute};
use netfile_core::wire::{connect_retry_delay_ms, PunchAttempt};

#[test]
fn test_stun_client_creation() {
    let client = StunClient::new();
    assert!(!client.servers().is_empty());
}

#[test]
fn test_custom_stun_servers() {
    let servers = vec!["stun.example.com:3478".to_string()];
    let client = StunClient::with_servers(servers.clone());
    assert_eq!(client.servers(), &servers);
}

#[test]
fn nat_names_round_trip() {
    assert_eq!(NatType::from_str(NatType::ConeNat.as_str()), NatType::ConeNat);
    assert_eq!(NatType::from_str("no_nat"), NatType::NoNat);
    assert_eq!(NatType::from_str("unknown"), NatType::SymmetricNat);
    assert!(NatType::ConeNat.is_punchable());
    assert!(!NatType::SymmetricNat.is_punchable());
}

#[test]
fn paths() {
    assert_eq!(join_path("/a", "b"), "/a/b");
    assert_eq!(join_path("/a/", "b"), "/a/b");
    assert_eq!(join_path("", "b"), "b");
    assert_eq!(join_path("/a", "/b"), "/b");
    assert_eq!(file_name("/x/y.txt"), Some("y.txt".to_string()));
    assert_eq!(file_name("/x/y/."), Some("y".to_string()));
    assert_eq!(file_name("/"), None);
    assert_eq!(file_name(".."), None);
}

fn msg(id: &str, seq: u64) -> netfile_core::message_store::ChatMessage {
    let mut m = incoming_message(id.to_string(), "peer-a".to_string(), "peer-a".to_string(), format!("msg-{}", id), 100);
    m.local_seq = seq;
    m
}

#[test]
fn message_numbering() {
    let out = normalize_messages(vec![msg("1", 0), msg("2", 7), msg("3", 0)]);
    assert_eq!(out[0].local_seq, 1);
    assert_eq!(out[1].local_seq, 7);
    assert_eq!(out[2].local_seq, 3);
    let mut m = msg("4", 0);
    assign_seq(&mut m, 2);
    assert_eq!(m.local_seq, 3);
    assert_eq!(next_count(2, 3), 3);
    assert_eq!(next_count(5, 3), 5);
    assert_eq!(delta_start(10, 5), (0, true));
    assert_eq!(delta_start(3, 5), (3, false));
}

#[test]
fn jsonl_framing() {
    let body = serialize_jsonl(&vec![b"{\"a\":1}".to_vec(), b"{}".to_vec()]);
    assert_eq!(body, b"{\"a\":1}\n{}\n".to_vec());
    let text = " {\"a\":1} \n\n{}\r\n";
    assert_eq!(jsonl_records(text), vec!["{\"a\":1}".to_string(), "{}".to_string()]);
    assert_eq!(count_jsonl(text), 2);
}

#[test]
fn jsonl_lines_read_back() {
    let lines = vec![
        "{\"id\":\"1\",\"content\":\"你好\"}".to_string(),
        "{\"id\":\"2\",\"content\":\"a b\"}".to_string(),
        "{}".to_string(),
    ];
    let body = serialize_jsonl(&lines.iter().map(|l| l.as_bytes().to_vec()).collect());
    let text = String::from_utf8(body).unwrap();
    assert_eq!(jsonl_records(&text), lines);
}

#[test]
fn conversation_files() {
    assert_eq!(conversation_file("/d/messages/peer-a.jsonl"), Some(("peer-a".to_string(), ConversationFile::Lines)));
    assert_eq!(conversation_file("/d/messages/peer-b.json"), Some(("peer-b".to_string(), ConversationFile::Legacy)));
    assert_eq!(conversation_file("/d/messages/.jsonl"), None);
    assert_eq!(conversation_file("/d/messages/counts.txt"), None);
    let s = MessageStore::new("/d".to_string());
    assert_eq!(s.conversation_path("p"), "/d/messages/p.jsonl");
    assert_eq!(s.legacy_conversation_path("p"), "/d/messages/p.json");
    assert_eq!(s.count_index_path(), "/d/messages/counts.json");
}

#[test]
fn settings_from_text() {
    let mut c = Config::default();
    assert!(apply_setting(&mut c, "network.transfer_port", "4000").is_ok());
    assert_eq!(c.network.transfer_port, 4000);
    assert!(apply_setting(&mut c, "instance.name", "box").is_ok());
    assert_eq!(c.instance.instance_name, "box");
    assert!(apply_setting(&mut c, "transfer.enable_compression", "true").is_ok());
    assert!(c.transfer.enable_compression);
    match apply_setting(&mut c, "network.transfer_port", "70000") {
        Err(SettingError::BadNumber(IntError::PosOverflow)) => {}
        _ => panic!("expected overflow"),
    }
    assert_eq!(c.network.transfer_port, 4000);
    match apply_setting(&mut c, "transfer.enable_compression", "yes") {
        Err(e) => assert_eq!(e.message(), "provided string was not `true` or `false`"),
        Ok(()) => panic!("expected refusal"),
    }
    match apply_setting(&mut c, "nosuch", "1") {
        Err(e) => assert_eq!(e.message(), "配置项格式错误，应为 section.key（如 instance.name）"),
        Ok(()) => panic!("expected refusal"),
    }
    match apply_setting(&mut c, "network.nosuch", "1") {
        Err(e) => assert_eq!(e.message(), "未知配置项: network.nosuch"),
        Ok(()) => panic!("expected refusal"),
    }
    match apply_setting(&mut c, "other.key", "1") {
        Err(e) => assert_eq!(e.message(), "未知配置节: other"),
        Ok(()) => panic!("expected refusal"),
    }
    assert_eq!(parse_uint("", 10), Err(IntError::Empty));
    assert_eq!(parse_uint("+", 10), Err(IntError::InvalidDigit));
    assert_eq!(parse_uint("+7", 10), Ok(7));
    assert_eq!(parse_uint("1x", 10), Err(IntError::InvalidDigit));
    assert_eq!(parse_uint("11", 10), Err(IntError::PosOverflow));
    assert_eq!(parse_uint("-1", 10), Err(IntError::InvalidDigit));
}

#[test]
fn lan_addresses() {
    assert!(is_lan_addr(IpAddress::V4([192, 168, 1, 2])));
    assert!(is_lan_addr(IpAddress::V4([172, 31, 0, 1])));
    assert!(!is_lan_addr(IpAddress::V4([172, 32, 0, 1])));
    assert!(is_lan_addr(IpAddress::V4([127, 0, 0, 1])));
    assert!(!is_lan_addr(IpAddress::V4([8, 8, 8, 8])));
    assert!(is_lan_addr(IpAddress::V6([0, 0, 0, 0, 0, 0, 0, 1])));
    assert!(is_lan_addr(IpAddress::V6([0xfe80, 0, 0, 0, 0, 0, 0, 1])));
    assert!(is_lan_addr(IpAddress::V6([0xfd12, 0, 0, 0, 0, 0, 0, 1])));
    assert!(!is_lan_addr(IpAddress::V6([0x2001, 0xdb8, 0, 0, 0, 0, 0, 1])));
}

#[test]
fn tabs_cycle() {
    assert_eq!(Tab::Devices.next(), Tab::Transfers);
    assert_eq!(Tab::Devices.previous(), Tab::Settings);
    assert_eq!(Tab::Settings.next().previous(), Tab::Settings);
}

#[test]
fn punching_gives_up_after_ten_probes() {
    let mut p = PunchAttempt::new();
    let mut n = 0;
    while p.next_probe() {
        n += 1;
    }
    assert_eq!(n, 10);
    assert!(PunchAttempt::reply_succeeds(b"PUNCH_ACK"));
    assert!(!PunchAttempt::reply_succeeds(b"PUNCH"));
}

#[test]
fn tls_files_live_under_certs() {
    let m = netfile_core::tls::TlsManager::new("/home/u/.netfile");
    assert_eq!(m.cert_path, "/home/u/.netfile/certs/cert.pem");
    assert_eq!(m.key_path, "/home/u/.netfile/certs/key.pem");
    let n = netfile_core::tls::TlsManager::new("data/");
    assert_eq!(n.cert_path, "data/certs/cert.pem");
}

#[test]
fn config_file_lives_in_dot_netfile() {
    assert_eq!(config_path_in(Some("/home/u".to_string())), "/home/u/.netfile/config.toml");
    assert_eq!(config_path_in(Some("/root/".to_string())), "/root/.netfile/config.toml");
    assert_eq!(config_path_in(None), "./.netfile/config.toml");
    assert!(netfile_core::config::Config::default_path().ends_with(".netfile/config.toml"));
}

#[test]
fn file_hash_ignores_how_the_file_was_cut() {
    let whole = vec![b"abc".to_vec()];
    let cut = vec![b"a".to_vec(), Vec::new(), b"bc".to_vec()];
    assert_eq!(calculate_file_hash(&whole), calculate_file_hash(&cut));
    assert_eq!(
        compute_file_sha256(&cut),
        "ba7816bf8f01cfea414140de5dae2223b00361a396177a9cb410ff61f20015ad"
    );
    assert_eq!(compute_file_sha256(&Vec::new()), sha256_hex(b""));
}

#[test]
fn count_index_reads_back_what_was_set() {
    let mut c = CountIndex::new();
    assert_eq!(c.get("a"), None);
    c.set("a", 3);
    assert_eq!(c.get("a"), Some(3));
    c.set("a", 5);
    assert_eq!(c.get("a"), Some(5));
    assert_eq!(c.get("b"), None);
    assert!(!c.fill_missing("a", 9));
    assert_eq!(c.get("a"), Some(5));
    assert!(c.fill_missing("b", 2));
    assert_eq!(c.get("b"), Some(2));
    assert_eq!(c.current_count("a", None), 5);
    assert_eq!(c.current_count("z", Some("l1\n\n  \n l2\n")), 2);
    assert_eq!(c.current_count("z", None), 0);
}

#[test]
fn missing_counts_come_from_lines_files_first() {
    let mut c = CountIndex::new();
    c.set("a", 5);
    let files = vec![
        ("/d/messages/x.json".to_string(), 7u64),
        ("/d/messages/x.jsonl".to_string(), 4),
        ("/d/messages/y.json".to_string(), 1),
        ("/d/messages/notes.txt".to_string(), 9),
        ("/d/messages/.jsonl".to_string(), 3),
        ("/d/messages/a.jsonl".to_string(), 100),
    ];
    assert!(c.populate_missing_counts(&files));
    assert_eq!(
        c.get_all_counts(),
        vec![("a".to_string(), 5), ("x".to_string(), 4), ("y".to_string(), 1)]
    );
    assert!(!c.populate_missing_counts(&files));
}

#[test]
fn counts_come_from_jsonl_and_legacy_files() {
    let jsonl = "{\"id\":\"1\",\"timestamp\":100}\n{\"id\":\"2\",\"timestamp\":101}\n";
    let files = vec![
        ("/d/messages/peer-c.jsonl".to_string(), count_jsonl(jsonl) as u64),
        ("/d/messages/peer-d.json".to_string(), 3u64),
    ];
    let mut counts = CountIndex::new();
    assert!(counts.populate_missing_counts(&files));
    assert_eq!(counts.get("peer-c"), Some(2));
    assert_eq!(counts.get("peer-d"), Some(3));
}

#[test]
fn oldest_logs_beyond_the_limit_go() {
    let names: Vec<String> = vec![
        "netfile.log.2024-01-03",
        "other.txt",
        "netfile.log.2024-01-01",
        "netfile.log.2024-01-02",
        "netfile.log",
    ]
    .into_iter()
    .map(|s| s.to_string())
    .collect();
    assert_eq!(old_logs(&names, 2), vec!["netfile.log".to_string(), "netfile.log.2024-01-01".to_string()]);
    assert_eq!(old_logs(&names, 4), Vec::<String>::new());
    assert_eq!(old_logs(&names, 0).len(), 4);
}

#[test]
fn lan_first_then_iroh() {
    let lan = Some(IpAddress::V4([192, 168, 1, 9]));
    let wan = Some(IpAddress::V4([8, 8, 8, 8]));
    assert_eq!(transfer_routes(lan, true), vec![TransferRoute::Lan, TransferRoute::Iroh]);
    assert_eq!(transfer_routes(lan, false), vec![TransferRoute::Lan]);
    assert_eq!(transfer_routes(wan, true), vec![TransferRoute::Iroh]);
    assert_eq!(transfer_routes(None, false), Vec::<TransferRoute>::new());
}

#[test]
fn stun_request_is_answered_with_the_seen_address() {
    let req = netfile_core::stun::binding_request();
    assert_eq!(req.len(), 20);
    assert_eq!(&req[..8], &[0x00, 0x01, 0x00, 0x00, 0x21, 0x12, 0xA4, 0x42]);
    let resp = netfile_core::stun::stun_binding_response(&req, [203, 0, 113, 5], 40000).unwrap();
    assert_eq!(&resp[8..20], &req[8..20]);
    let seen = netfile_core::stun::mapped_address(&resp).unwrap();
    assert!(!seen.v6);
    assert_eq!(seen.ip, u32::from_be_bytes([203, 0, 113, 5]) as u128);
    assert_eq!(seen.port, 40000);
    assert!(netfile_core::stun::mapped_address(b"not a stun message").is_none());
    assert!(netfile_core::stun::stun_binding_response(b"short", [1, 2, 3, 4], 1).is_none());
}

#[test]
fn nat_type_from_two_answers() {
    let c = StunClient::new();
    let at = |ip: u128, port: u16| MappedAddr { v6: false, ip, port };
    assert_eq!(c.detect_nat_type(Some(at(7, 1000)), Some(at(7, 1000)), false, 7), Ok(NatType::NoNat));
    assert_eq!(c.detect_nat_type(Some(at(9, 1000)), Some(at(9, 1000)), false, 7), Ok(NatType::ConeNat));
    assert_eq!(c.detect_nat_type(Some(at(9, 1000)), Some(at(9, 2000)), false, 7), Ok(NatType::SymmetricNat));
    assert_eq!(c.detect_nat_type(Some(at(9, 1000)), None, false, 7), Ok(NatType::ConeNat));
    assert_eq!(c.detect_nat_type(None, Some(at(9, 1000)), false, 7), Err(StunError::NoAnswer));
    assert_eq!(c.detect_nat_type(Some(at(7, 1000)), None, true, 7), Ok(NatType::ConeNat));
    let one = StunClient::with_servers(vec!["s:1".to_string()]);
    assert_eq!(one.detect_nat_type(Some(at(7, 1)), None, false, 7), Err(StunError::NotEnoughServers));
}

#[test]
fn text_messages_are_stored_and_acknowledged() {
    let (chat, msg) = text_message_parts("m1".into(), "me".into(), "Me".into(), "hi".into(), 42);
    assert!(chat.is_self && chat.local_seq == 0 && chat.id == "m1" && chat.timestamp == 42);
    assert!(matches!(msg, Message::TextMessage(ref t) if t.id == "m1" && t.content == "hi" && t.timestamp == 42));

    let (chat2, msg2) = compose_text_message("me".into(), "Me".into(), "yo".into());
    assert_eq!(chat2.id.len(), 36);
    assert!(matches!(msg2, Message::TextMessage(ref t) if t.id == chat2.id && t.timestamp == chat2.timestamp));

    let incoming = TextMessage {
        id: "x9".into(),
        from_instance_id: "peer".into(),
        from_instance_name: "Peer".into(),
        content: "hello".into(),
        timestamp: 7,
    };
    let (peer, stored, ack) = text_message_received(incoming);
    assert_eq!(peer, "peer");
    assert!(!stored.is_self && stored.id == "x9" && stored.content == "hello");
    assert!(matches!(ack, Message::TextAck(ref a) if a.message_id == "x9"));
}

#[test]
fn sha256_hex_of_known_input() {
    assert_eq!(sha256_hex(b""), "e3b0c44298fc1c149afbf4c8996fb92427ae41e4649b934ca495991b7852b855");
}

#[test]
fn device_name_falls_back_to_unknown() {
    assert_eq!(device_name_or_unknown(Some("host-1".to_string())), "host-1");
    assert_eq!(device_name_or_unknown(Some(String::new())), "Unknown");
    assert_eq!(device_name_or_unknown(None), "Unknown");
    assert!(!default_device_name().is_empty());
}

#[test]
fn connections_are_retried_with_backoff() {
    assert_eq!(connect_retry_delay_ms(0), Some(200));
    assert_eq!(connect_retry_delay_ms(1), Some(400));
    assert_eq!(connect_retry_delay_ms(2), Some(800));
    assert_eq!(connect_retry_delay_ms(3), None);
    assert_eq!(connect_retry_delay_ms(u32::MAX), None);
}
