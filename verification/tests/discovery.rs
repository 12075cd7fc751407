use netfile_core::discovery::{
    accept_announcement, broadcast_plan, cleanup_stale_devices, dedupe_devices, is_device_fresh,
    should_replace_device, Device, DeviceTable, DiscoveryMessage, HeardTable, LastHeard,
};

fn make_device(
    device_id: &str,
    instance_id: &str,
    instance_name: &str,
    ip: &str,
    is_self: bool,
    seen_secs: u64,
) -> Device {
    Device {
        device_id: device_id.to_string(),
        instance_id: instance_id.to_string(),
        device_name: "device".to_string(),
        instance_name: instance_name.to_string(),
        ip: ip.to_string(),
        port: 37030,
        version: "1.0.0".to_string(),
        last_seen: seen_secs * 1_000_000_000,
        is_self,
        public_transfer_addr: None,
        discovery_port: 37020,
    }
}

#[test]
fn dedupe_devices_prefers_self_entry() {
    let devices = vec![
        make_device("device-1", "session-a", "alpha", "192.168.1.24", false, 10),
        make_device("device-1", "session-b", "alpha", "127.0.0.1", true, 5),
    ];

    let deduped = dedupe_devices(devices);

    assert_eq!(deduped.len(), 1);
    assert!(deduped[0].is_self);
    assert_eq!(deduped[0].instance_id, "session-b");
}

#[test]
fn dedupe_devices_keeps_latest_remote_session() {
    let devices = vec![
        make_device("device-1", "session-a", "alpha", "192.168.1.24", false, 10),
        make_device("device-1", "session-b", "alpha", "192.168.1.24", false, 20),
        make_device("device-2", "session-c", "beta", "192.168.1.99", false, 15),
    ];

    let deduped = dedupe_devices(devices);

    assert_eq!(deduped.len(), 2);
    assert!(deduped
        .iter()
        .any(|device| device.device_id == "device-1" && device.instance_id == "session-b"));
    assert!(deduped
        .iter()
        .any(|device| device.device_id == "device-2" && device.instance_id == "session-c"));
}

#[test]
fn dedupe_orders_self_first_then_by_name() {
    let devices = vec![
        make_device("d3", "s3", "zeta", "10.0.0.3", false, 1),
        make_device("d2", "s2", "beta", "10.0.0.2", false, 1),
        make_device("d1", "s1", "omega", "127.0.0.1", true, 1),
    ];
    let deduped = dedupe_devices(devices);
    let names: Vec<&str> = deduped.iter().map(|d| d.instance_name.as_str()).collect();
    assert_eq!(names, vec!["omega", "beta", "zeta"]);
}

#[test]
fn dedupe_keys_by_instance_when_device_id_empty() {
    let devices = vec![
        make_device("", "s1", "a", "10.0.0.1", false, 1),
        make_device("", "s2", "a", "10.0.0.1", false, 2),
    ];
    assert_eq!(dedupe_devices(devices).len(), 2);
}

#[test]
fn replace_rule_breaks_ties_by_instance_id() {
    let a = make_device("d", "b-session", "x", "10.0.0.1", false, 5);
    let b = make_device("d", "a-session", "x", "10.0.0.1", false, 5);
    assert!(should_replace_device(&a, &b));
    assert!(!should_replace_device(&b, &a));
}

#[test]
fn announcements_are_rate_limited() {
    assert!(!accept_announcement("me", "me", 10, None));
    assert!(accept_announcement("me", "you", 10, None));
    assert!(!accept_announcement("me", "you", 10, Some(LastHeard { timestamp: 10, elapsed_ms: 1000 })));
    assert!(!accept_announcement("me", "you", 11, Some(LastHeard { timestamp: 10, elapsed_ms: 499 })));
    assert!(accept_announcement("me", "you", 11, Some(LastHeard { timestamp: 10, elapsed_ms: 500 })));
}

#[test]
fn heard_table_takes_in_and_limits() {
    let mut t = HeardTable::new();
    assert!(t.take_in("me", "peer", 100, 1_000));
    assert!(!t.take_in("me", "peer", 101, 1_200));
    assert!(t.take_in("me", "peer", 101, 1_600));
    assert!(!t.take_in("me", "peer", 101, 5_000));
    t.forget("peer");
    assert!(t.take_in("me", "peer", 1, 5_000));
}

#[test]
fn stale_devices_are_dropped() {
    let mut devices = vec![
        make_device("a", "old", "a", "10.0.0.1", false, 100),
        make_device("b", "new", "b", "10.0.0.2", false, 110),
    ];
    let dropped = cleanup_stale_devices(&mut devices, 116 * 1_000_000_000);
    assert_eq!(dropped, vec!["old".to_string()]);
    assert_eq!(devices.len(), 1);
    assert_eq!(devices[0].instance_id, "new");
    assert!(is_device_fresh(10, 10));
    assert!(!is_device_fresh(10, 11));
    assert!(!is_device_fresh(15_000_000_000, 0));
}

#[test]
fn device_table_replaces_by_instance() {
    let mut t = DeviceTable::new();
    t.insert(make_device("d", "s1", "first", "10.0.0.1", false, 1));
    t.insert(make_device("d", "s1", "second", "10.0.0.1", false, 2));
    assert_eq!(t.get_device("s1").unwrap().instance_name, "second");
    assert!(t.get_device("s2").is_none());
    let local = make_device("me", "mine", "me", "127.0.0.1", true, 3);
    let list = t.get_devices(local);
    assert_eq!(list.len(), 2);
    assert!(list[0].is_self);
}

#[test]
fn broadcast_schedule() {
    let p = broadcast_plan(false, 2, Some(1000), Some(1000));
    assert_eq!(p.wait_ms, 2000);
    assert!(!p.full);
    let p = broadcast_plan(false, 0, None, Some(1000));
    assert_eq!(p.wait_ms, 0);
    assert!(p.full);
    let p = broadcast_plan(false, 3, Some(5000), Some(30000));
    assert!(p.full);
    assert!(broadcast_plan(true, 3, Some(5000), Some(10)).full);
}

#[test]
fn announcement_becomes_device() {
    let m = DiscoveryMessage::new(
        "dev".to_string(),
        "inst".to_string(),
        "box".to_string(),
        "name".to_string(),
        4000,
    );
    assert_eq!(m.version, "0.1.0");
    let d = m.to_device("192.168.0.5".to_string(), 37020, 42);
    assert_eq!(d.ip, "192.168.0.5");
    assert_eq!(d.last_seen, 42);
    assert!(!d.is_self);
    let l = m.local_device(None, 37020, 42);
    assert_eq!(l.ip, "127.0.0.1");
    assert!(l.is_self);
}
