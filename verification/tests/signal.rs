use netfile_core::message_store::ChatMessage;
use netfile_core::signal::{generate_code, invite_code_from, C2sMsg, FriendInfo, OfflineMsg, S2cMsg, SignalStatus};
use netfile_core::signal_client::{port_of_addr, server_candidates, ClientAction, SignalClient};
use netfile_core::limits::{message_size_ok, ConnectionCounter, MessageRate, ServerLimits};
use netfile_core::relay::RelayWaitlist;
use netfile_core::signal_server::{Outgoing, Recipient, ServerState, Session};
use netfile_core::wire::relay_key_len_ok;

const UUID: &str = "1a2b3c4d-0000-4000-8000-00000000abcd";

fn session(id: &str) -> Session {
    Session {
        device_id: id.to_string(),
        instance_name: format!("{}-name", id),
        transfer_addr: format!("{}:1000", id),
        iroh_addr: String::new(),
    }
}

fn to_me(o: &Outgoing) -> bool {
    matches!(o.to, Recipient::Me)
}

fn to_dev(o: &Outgoing, id: &str) -> bool {
    matches!(&o.to, Recipient::Device(d) if d == id)
}

#[test]
fn invite_codes() {
    assert_eq!(invite_code_from(UUID), "1A2B3C4D");
    let c = generate_code();
    assert_eq!(c.len(), 8);
    assert!(c.chars().all(|ch| ch.is_ascii_digit() || ('A'..='F').contains(&ch)));
}

fn pair_up(server: &mut ServerState, a: &Session, b: &Session) {
    let out = server.generate_invite(a, 0, UUID);
    let code = match &out[0].msg {
        S2cMsg::InviteCode { code } => code.clone(),
        _ => panic!("expected a code"),
    };
    let out = server.accept_invite(b, &code, 1000);
    match &out[0].msg {
        S2cMsg::InviteResult { success, .. } => assert!(*success),
        _ => panic!("expected a result"),
    }
}

#[test]
fn server_pairs_and_relays() {
    let mut server = ServerState::new();
    let a = session("a");
    let mut b = session("b");
    let replies = server.register(&a, "1.2.3.4");
    assert_eq!(replies.len(), 1);
    server.go_online(&a);
    let replies = server.register(&b, "5.6.7.8");
    match &replies[0] {
        S2cMsg::Registered { friends, observed_addr, .. } => {
            assert!(friends.is_empty());
            assert_eq!(observed_addr, "5.6.7.8");
        }
        _ => panic!("expected registration"),
    }
    server.go_online(&b);

    let out = server.generate_invite(&a, 0, UUID);
    assert!(to_me(&out[0]));
    let out = server.accept_invite(&b, "1A2B3C4D", 1000);
    assert_eq!(out.len(), 3);
    assert!(to_me(&out[0]));
    assert!(to_dev(&out[1], "a"));
    assert!(matches!(&out[1].msg, S2cMsg::FriendOnline { device_id, .. } if device_id == "b"));
    assert!(to_dev(&out[2], "a"));
    assert!(server.are_friends("a", "b"));
    assert!(server.are_friends("b", "a"));

    // The code is used up.
    let out = server.accept_invite(&b, "1A2B3C4D", 1000);
    assert!(matches!(&out[0].msg, S2cMsg::InviteResult { success: false, error: Some(e), .. } if e == "邀请码无效或已过期"));

    let out = server.handle_message(
        &mut b,
        C2sMsg::RelayMessage { to_device_id: "a".to_string(), content: "hi".to_string(), timestamp: 5 },
        2000,
        UUID,
    );
    assert_eq!(out.len(), 1);
    assert!(to_dev(&out[0], "a"));
    assert!(matches!(&out[0].msg, S2cMsg::RelayedMessage { content, .. } if content == "hi"));

    let out = server.handle_message(
        &mut b,
        C2sMsg::RelayMessage { to_device_id: "c".to_string(), content: "x".to_string(), timestamp: 5 },
        2000,
        UUID,
    );
    assert!(matches!(&out[0].msg, S2cMsg::Error { message } if message == "非好友"));

    let out = server.update_transfer_addr(&mut b, "9.9.9.9:1".to_string());
    assert_eq!(out.len(), 1);
    assert!(to_dev(&out[0], "a"));
    assert!(server.update_transfer_addr(&mut b, "9.9.9.9:1".to_string()).is_empty());

    let out = server.disconnect(&a);
    assert_eq!(out.len(), 1);
    assert!(to_dev(&out[0], "b"));
    assert!(matches!(&out[0].msg, S2cMsg::FriendOffline { device_id } if device_id == "a"));
}

#[test]
fn server_keeps_messages_for_offline_friends() {
    let mut server = ServerState::new();
    let a = session("a");
    let b = session("b");
    server.go_online(&a);
    pair_up(&mut server, &a, &b);
    for i in 0..205u64 {
        let out = server.relay_message(&a, "b", format!("m{}", i), i);
        assert!(out.is_empty());
    }
    let replies = server.register(&b, "1.1.1.1");
    assert_eq!(replies.len(), 2);
    match &replies[0] {
        S2cMsg::OfflineMessages { messages } => {
            assert_eq!(messages.len(), 200);
            assert_eq!(messages[0].content, "m0");
        }
        _ => panic!("expected offline messages"),
    }
    match &replies[1] {
        S2cMsg::Registered { friends, .. } => {
            assert_eq!(friends.len(), 1);
            assert!(friends[0].online);
            assert_eq!(friends[0].device_id, "a");
        }
        _ => panic!("expected registration"),
    }
    assert_eq!(server.register(&b, "1.1.1.1").len(), 1);
}

#[test]
fn invites_expire_after_ten_minutes() {
    let mut server = ServerState::new();
    let a = session("a");
    let b = session("b");
    server.generate_invite(&a, 0, UUID);
    let out = server.accept_invite(&b, "1A2B3C4D", 600_001);
    assert!(matches!(&out[0].msg, S2cMsg::InviteResult { success: false, error: Some(e), .. } if e == "邀请码已过期"));
    server.generate_invite(&a, 0, UUID);
    assert_eq!(server.cleanup_expired_invites(600_000), 0);
    assert_eq!(server.cleanup_expired_invites(600_001), 1);
}

#[test]
fn relay_sessions() {
    let mut server = ServerState::new_with_relay("relay:1".to_string());
    let a = session("a");
    let b = session("b");
    server.go_online(&a);
    server.go_online(&b);
    pair_up(&mut server, &a, &b);
    let out = server.request_relay(&a, "b", UUID);
    assert_eq!(out.len(), 2);
    assert!(matches!(&out[1].msg, S2cMsg::RelayReady { session_key, relay_addr } if session_key == UUID && relay_addr == "relay:1"));
    let plain = ServerState::new();
    let out = plain.request_relay(&a, "b", UUID);
    assert!(matches!(&out[0].msg, S2cMsg::Error { message } if message == "服务器未启用relay"));
}

#[test]
fn client_port_parsing() {
    assert_eq!(port_of_addr("0.0.0.0:37050"), 37050);
    assert_eq!(port_of_addr("0.0.0.0:99999"), 0);
    assert_eq!(port_of_addr("nothing"), 0);
    assert_eq!(port_of_addr("host:"), 0);
}

#[test]
fn client_registration_and_friends() {
    let mut c = SignalClient::new("me".to_string(), "Me".to_string(), "0.0.0.0:37050".to_string(), "srv:1".to_string());
    match c.connect() {
        C2sMsg::Register { device_id, .. } => assert_eq!(device_id, "me"),
        _ => panic!("expected registration"),
    }
    assert_eq!(c.status(), SignalStatus::Connecting);
    let actions = c.handle_incoming(S2cMsg::Registered {
        friends: vec![FriendInfo {
            device_id: "f".to_string(),
            instance_name: "F".to_string(),
            online: false,
            transfer_addr: None,
            iroh_addr: None,
        }],
        observed_addr: "8.8.8.8".to_string(),
        relay_addr: None,
        stun_addr: Some("stun:1".to_string()),
        iroh_relay_url: None,
    });
    assert_eq!(c.status(), SignalStatus::Connected);
    assert_eq!(c.get_transfer_addr(), "8.8.8.8:37050");
    assert!(matches!(&actions[0], ClientAction::Send(C2sMsg::UpdateTransferAddr { transfer_addr }) if transfer_addr == "8.8.8.8:37050"));

    c.handle_incoming(S2cMsg::FriendOnline {
        device_id: "f".to_string(),
        instance_name: "F2".to_string(),
        transfer_addr: "1.1.1.1:2".to_string(),
        iroh_addr: Some("iroh".to_string()),
    });
    assert_eq!(c.get_peer_iroh_addr("f"), Some("iroh".to_string()));
    c.handle_incoming(S2cMsg::FriendOffline { device_id: "f".to_string() });
    assert_eq!(c.get_peer_iroh_addr("f"), None);
    assert!(!c.get_friends()[0].online);

    c.generate_invite();
    let a = c.handle_incoming(S2cMsg::InviteCode { code: "ABCDEF12".to_string() });
    assert!(matches!(&a[0], ClientAction::InviteCode(code) if code == "ABCDEF12"));
    assert!(c.handle_incoming(S2cMsg::InviteCode { code: "X".to_string() }).is_empty());

    c.accept_invite("ABCDEF12".to_string());
    let a = c.handle_incoming(S2cMsg::InviteResult { success: false, friend: None, error: None });
    assert!(matches!(&a[0], ClientAction::AcceptResult(Err(e)) if e == "未知错误"));
    c.accept_invite("ABCDEF12".to_string());
    let a = c.handle_incoming(S2cMsg::InviteResult { success: true, friend: None, error: None });
    assert!(matches!(&a[0], ClientAction::AcceptResult(Err(e)) if e == "服务器返回空好友信息"));
}

#[test]
fn client_stores_relayed_messages() {
    let mut c = SignalClient::new("me".to_string(), "Me".to_string(), "".to_string(), "srv:1".to_string());
    let a = c.handle_incoming(S2cMsg::OfflineMessages {
        messages: vec![
            OfflineMsg { from_device_id: "x".to_string(), from_instance_name: "X".to_string(), content: "1".to_string(), timestamp: 1 },
            OfflineMsg { from_device_id: "y".to_string(), from_instance_name: "Y".to_string(), content: "2".to_string(), timestamp: 2 },
        ],
    });
    assert_eq!(a.len(), 2);
    match &a[1] {
        ClientAction::Save { peer, message } => {
            let m: &ChatMessage = message;
            assert_eq!(peer, "y");
            assert_eq!(m.content, "2");
            assert_eq!(m.id.len(), 36);
            assert!(!m.is_self);
        }
        _ => panic!("expected a message to store"),
    }
}

#[test]
fn relay_pairs_connections_with_the_same_key() {
    let mut w = RelayWaitlist::new();
    assert_eq!(w.arrive("k1".to_string(), 1), None);
    assert_eq!(w.arrive("k2".to_string(), 2), None);
    assert_eq!(w.len(), 2);
    assert_eq!(w.arrive("k1".to_string(), 3), Some(1));
    assert_eq!(w.len(), 1);
    // A third connection with a used key waits again.
    assert_eq!(w.arrive("k1".to_string(), 4), None);
    assert_eq!(w.arrive("k2".to_string(), 5), Some(2));
    assert_eq!(w.arrive("k1".to_string(), 6), Some(4));
    assert_eq!(w.len(), 0);
}

#[test]
fn relay_key_length_bounds() {
    assert!(!relay_key_len_ok(0));
    assert!(relay_key_len_ok(1));
    assert!(relay_key_len_ok(256));
    assert!(!relay_key_len_ok(257));
}

#[test]
fn server_limit_defaults() {
    let l = ServerLimits::default();
    assert_eq!(l.max_connections, 500);
    assert_eq!(l.max_connections_per_ip, 5);
    assert_eq!(l.rate_limit_msgs_per_sec, 20);
    assert_eq!(l.max_msg_bytes, 65536);
    assert!(message_size_ok(65536, &l));
    assert!(!message_size_ok(65537, &l));
}

#[test]
fn connections_are_limited_in_all_and_per_address() {
    let limits = ServerLimits { max_connections: 3, max_connections_per_ip: 2, rate_limit_msgs_per_sec: 20, max_msg_bytes: 10 };
    let mut c = ConnectionCounter::new(limits);
    assert!(c.try_admit("1.1.1.1"));
    assert!(c.try_admit("1.1.1.1"));
    assert!(!c.try_admit("1.1.1.1"));
    assert!(c.try_admit("2.2.2.2"));
    assert_eq!(c.total(), 3);
    assert!(!c.try_admit("3.3.3.3"));
    c.release("1.1.1.1");
    assert_eq!(c.total(), 2);
    assert!(c.try_admit("3.3.3.3"));
    // Releasing an address that holds nothing changes nothing.
    c.release("9.9.9.9");
    assert_eq!(c.total(), 3);
    c.release("2.2.2.2");
    c.release("2.2.2.2");
    assert_eq!(c.total(), 2);
    assert!(c.try_admit("1.1.1.1"));
    assert!(!c.try_admit("1.1.1.1"));
}

#[test]
fn messages_are_limited_per_second() {
    let mut r = MessageRate::new(1_000);
    for i in 0..20u64 {
        assert!(r.allow(1_000 + i * 10, 20));
    }
    assert!(!r.allow(1_500, 20));
    assert!(!r.allow(1_999, 20));
    assert!(r.allow(2_000, 20));
    // A clock that went back keeps the current window.
    let mut r = MessageRate::new(5_000);
    assert!(r.allow(4_000, 1));
    assert!(!r.allow(4_500, 1));
}

#[test]
fn several_signal_servers_are_tried_in_order() {
    assert_eq!(server_candidates("host1:37200,host2:37200"), vec!["host1:37200".to_string(), "host2:37200".to_string()]);
    assert_eq!(server_candidates(" a:1 , ,b:2,"), vec!["a:1".to_string(), "b:2".to_string()]);
    assert_eq!(server_candidates("your-server-ip:37200"), vec!["your-server-ip:37200".to_string()]);
    assert!(server_candidates("").is_empty());
    assert!(server_candidates(" , ").is_empty());
}

#[test]
fn relay_messages_need_a_link_to_the_server() {
    let mut c = SignalClient::new("me".to_string(), "Me".to_string(), "0.0.0.0:1".to_string(), "srv:1".to_string());
    assert_eq!(c.send_relay_message("a", "hi".to_string(), 1).err(), Some("未连接到信令服务器".to_string()));
    let _ = c.connect();
    match c.send_relay_message("a", "hi".to_string(), 1) {
        Ok(C2sMsg::RelayMessage { to_device_id, content, timestamp }) => {
            assert_eq!((to_device_id.as_str(), content.as_str(), timestamp), ("a", "hi", 1));
        }
        _ => panic!("expected a relay message"),
    }
    c.disconnect();
    assert!(c.send_relay_message("a", "hi".to_string(), 1).is_err());
}
