//! LAN discovery: the announcement each instance broadcasts, the devices it
//! learns of, and the rules by which announcements are accepted, devices
//! expire and the device list is merged and ordered.
use vstd::prelude::*;
use crate::auth::id_list;
use crate::lists::{first_where, lemma_first_where};
use crate::text::{compare_chars, compare_str, str_equal, lemma_compare_antisym, lemma_compare_eq, lemma_compare_trans};

verus! {

/// The version this build announces.
pub const PROTOCOL_VERSION: &'static str = "0.1.0";

/// A device on the network whose announcement was heard (or this instance).
#[derive(Debug)]
pub struct Device {
    pub device_id: String,
    pub instance_id: String,
    pub device_name: String,
    pub instance_name: String,
    /// The address the announcement came from, in its textual form.
    pub ip: String,
    pub port: u16,
    pub version: String,
    /// When the device was last heard from, in nanoseconds since the Unix epoch.
    pub last_seen: u64,
    pub is_self: bool,
    pub public_transfer_addr: Option<String>,
    pub discovery_port: u16,
}

fn clone_opt_string(s: &Option<String>) -> (r: Option<String>)
    ensures
        r == *s,
{
    match s {
        Some(x) => Some(x.clone()),
        None => None,
    }
}

impl Clone for Device {
    fn clone(&self) -> (r: Self)
        ensures
            r == *self,
    {
        Device {
            device_id: self.device_id.clone(),
            instance_id: self.instance_id.clone(),
            device_name: self.device_name.clone(),
            instance_name: self.instance_name.clone(),
            ip: self.ip.clone(),
            port: self.port,
            version: self.version.clone(),
            last_seen: self.last_seen,
            is_self: self.is_self,
            public_transfer_addr: clone_opt_string(&self.public_transfer_addr),
            discovery_port: self.discovery_port,
        }
    }
}

// ---------------------------------------------------------------------------
// Merging the device list.
// ---------------------------------------------------------------------------

/// Devices are merged by their device id, or by their instance id when the
/// device id is empty.
pub open spec fn device_key(d: Device) -> Seq<char> {
    if d.device_id@.len() == 0 {
        d.instance_id@
    } else {
        d.device_id@
    }
}

/// Whether `candidate` takes the place of `existing` among entries with the
/// same key: this instance's own entry wins; otherwise the one seen most
/// recently; at equal times the smaller instance id.
pub open spec fn replaces(existing: Device, candidate: Device) -> bool {
    if !existing.is_self && candidate.is_self {
        true
    } else if existing.is_self && !candidate.is_self {
        false
    } else if candidate.last_seen > existing.last_seen {
        true
    } else if candidate.last_seen < existing.last_seen {
        false
    } else {
        compare_chars(candidate.instance_id@, existing.instance_id@) < 0
    }
}

pub fn should_replace_device(existing: &Device, candidate: &Device) -> (r: bool)
    ensures
        r == replaces(*existing, *candidate),
{
    if !existing.is_self && candidate.is_self {
        true
    } else if existing.is_self && !candidate.is_self {
        false
    } else if candidate.last_seen > existing.last_seen {
        true
    } else if candidate.last_seen < existing.last_seen {
        false
    } else {
        compare_str(candidate.instance_id.as_str(), existing.instance_id.as_str()) < 0
    }
}

proof fn lemma_replaces_trans(a: Device, b: Device, c: Device)
    requires
        replaces(a, b),
        replaces(b, c),
    ensures
        replaces(a, c),
{
    if a.is_self == b.is_self && b.is_self == c.is_self && a.last_seen == b.last_seen
        && b.last_seen == c.last_seen {
        lemma_compare_antisym(c.instance_id@, b.instance_id@);
        lemma_compare_antisym(b.instance_id@, a.instance_id@);
        lemma_compare_trans(c.instance_id@, b.instance_id@, a.instance_id@);
    }
}

/// The key of a device.
fn key_of(d: &Device) -> (k: &str)
    ensures
        k@ == device_key(*d),
{
    if d.device_id.as_str().is_empty() {
        d.instance_id.as_str()
    } else {
        d.device_id.as_str()
    }
}

/// The order of the device list: this instance first, then by instance
/// name, device name, address text and instance id.
pub open spec fn device_order(a: Device, b: Device) -> int {
    if a.is_self != b.is_self {
        if a.is_self {
            -1
        } else {
            1
        }
    } else if compare_chars(a.instance_name@, b.instance_name@) != 0 {
        compare_chars(a.instance_name@, b.instance_name@)
    } else if compare_chars(a.device_name@, b.device_name@) != 0 {
        compare_chars(a.device_name@, b.device_name@)
    } else if compare_chars(a.ip@, b.ip@) != 0 {
        compare_chars(a.ip@, b.ip@)
    } else {
        compare_chars(a.instance_id@, b.instance_id@)
    }
}

proof fn lemma_device_order_antisym(a: Device, b: Device)
    ensures
        device_order(a, b) == -device_order(b, a),
{
    lemma_compare_antisym(a.instance_name@, b.instance_name@);
    lemma_compare_antisym(a.device_name@, b.device_name@);
    lemma_compare_antisym(a.ip@, b.ip@);
    lemma_compare_antisym(a.instance_id@, b.instance_id@);
}

proof fn lemma_chain(x: Seq<char>, y: Seq<char>, z: Seq<char>)
    ensures
        compare_chars(x, y) <= 0 && compare_chars(y, z) <= 0 ==> compare_chars(x, z) <= 0,
        compare_chars(x, y) < 0 && compare_chars(y, z) <= 0 ==> compare_chars(x, z) < 0,
        compare_chars(x, y) <= 0 && compare_chars(y, z) < 0 ==> compare_chars(x, z) < 0,
        compare_chars(x, y) == 0 ==> x == y,
        compare_chars(y, z) == 0 ==> y == z,
{
    if compare_chars(x, y) <= 0 && compare_chars(y, z) <= 0 {
        lemma_compare_trans(x, y, z);
    }
    lemma_compare_eq(x, y);
    lemma_compare_eq(y, z);
}

proof fn lemma_device_order_trans(a: Device, b: Device, c: Device)
    requires
        device_order(a, b) <= 0,
        device_order(b, c) <= 0,
    ensures
        device_order(a, c) <= 0,
        (device_order(a, b) < 0 || device_order(b, c) < 0) ==> device_order(a, c) < 0,
{
    lemma_chain(a.instance_name@, b.instance_name@, c.instance_name@);
    lemma_chain(a.device_name@, b.device_name@, c.device_name@);
    lemma_chain(a.ip@, b.ip@, c.ip@);
    lemma_chain(a.instance_id@, b.instance_id@, c.instance_id@);
    lemma_compare_eq(a.instance_name@, c.instance_name@);
    lemma_compare_eq(a.device_name@, c.device_name@);
    lemma_compare_eq(a.ip@, c.ip@);
    lemma_compare_eq(a.instance_id@, c.instance_id@);
}

fn order_devices(a: &Device, b: &Device) -> (r: i8)
    ensures
        r as int == device_order(*a, *b),
{
    if a.is_self != b.is_self {
        if a.is_self {
            -1
        } else {
            1
        }
    } else {
        let c1 = compare_str(a.instance_name.as_str(), b.instance_name.as_str());
        if c1 != 0 {
            return c1;
        }
        let c2 = compare_str(a.device_name.as_str(), b.device_name.as_str());
        if c2 != 0 {
            return c2;
        }
        let c3 = compare_str(a.ip.as_str(), b.ip.as_str());
        if c3 != 0 {
            return c3;
        }
        compare_str(a.instance_id.as_str(), b.instance_id.as_str())
    }
}

/// `out` is in device-list order.
pub open spec fn devices_sorted(out: Seq<Device>) -> bool {
    forall|i: int, j: int| 0 <= i < j < out.len() ==> device_order(#[trigger] out[i], #[trigger] out[j]) <= 0
}

/// The merged list `out` of the announcements `input`: one entry per key,
/// each taken from the input, none of which another input entry with the
/// same key would replace.
pub open spec fn merged_from(input: Seq<Device>, out: Seq<Device>) -> bool {
    &&& forall|i: int| 0 <= i < out.len() ==> input.contains(#[trigger] out[i])
    &&& forall|i: int, j: int|
        0 <= i < j < out.len() ==> device_key(#[trigger] out[i]) != device_key(#[trigger] out[j])
    &&& forall|x: int| 0 <= x < input.len() ==> #[trigger] kept_for(out, input[x])
}

/// `out` holds an entry with the key of `d` that `d` would not replace.
pub open spec fn kept_for(out: Seq<Device>, d: Device) -> bool {
    exists|i: int|
        0 <= i < out.len() && device_key(#[trigger] out[i]) == device_key(d) && !replaces(out[i], d)
}

proof fn lemma_not_replaces_self(d: Device)
    ensures
        !replaces(d, d),
{
    lemma_compare_eq(d.instance_id@, d.instance_id@);
}

/// Merging an announcement whose key is already present, where it replaces
/// the entry kept so far.
proof fn lemma_merge_replace(pre: Seq<Device>, old_merged: Seq<Device>, idx: int, d: Device)
    requires
        merged_from(pre, old_merged),
        0 <= idx < old_merged.len(),
        device_key(old_merged[idx]) == device_key(d),
        replaces(old_merged[idx], d),
    ensures
        merged_from(pre.push(d), old_merged.update(idx, d)),
{
    let now = pre.push(d);
    let merged = old_merged.update(idx, d);
    assert forall|k: int| 0 <= k < merged.len() implies now.contains(#[trigger] merged[k]) by {
        if k == idx {
            assert(now[pre.len() as int] == d);
        } else {
            assert(pre.contains(old_merged[k]));
            let w = choose|w: int| 0 <= w < pre.len() && pre[w] == old_merged[k];
            assert(now[w] == pre[w]);
        }
    }
    assert forall|a: int, b: int| 0 <= a < b < merged.len() implies device_key(#[trigger] merged[a])
        != device_key(#[trigger] merged[b]) by {
        assert(device_key(old_merged[a]) != device_key(old_merged[b]));
    }
    assert forall|x: int| 0 <= x < now.len() implies #[trigger] kept_for(merged, now[x]) by {
        if x == pre.len() {
            lemma_not_replaces_self(d);
            assert(merged[idx] == d);
        } else {
            assert(now[x] == pre[x]);
            assert(kept_for(old_merged, pre[x]));
            let k = choose|k: int|
                0 <= k < old_merged.len() && device_key(#[trigger] old_merged[k]) == device_key(pre[x])
                    && !replaces(old_merged[k], pre[x]);
            if k == idx {
                if replaces(d, pre[x]) {
                    lemma_replaces_trans(old_merged[k], d, pre[x]);
                }
            }
            assert(device_key(merged[k]) == device_key(now[x]));
        }
    }
}

/// Merging an announcement whose key is already present, where the entry
/// kept so far stays.
proof fn lemma_merge_keep(pre: Seq<Device>, old_merged: Seq<Device>, idx: int, d: Device)
    requires
        merged_from(pre, old_merged),
        0 <= idx < old_merged.len(),
        device_key(old_merged[idx]) == device_key(d),
        !replaces(old_merged[idx], d),
    ensures
        merged_from(pre.push(d), old_merged),
{
    let now = pre.push(d);
    assert forall|k: int| 0 <= k < old_merged.len() implies now.contains(#[trigger] old_merged[k]) by {
        assert(pre.contains(old_merged[k]));
        let w = choose|w: int| 0 <= w < pre.len() && pre[w] == old_merged[k];
        assert(now[w] == pre[w]);
    }
    assert forall|x: int| 0 <= x < now.len() implies #[trigger] kept_for(old_merged, now[x]) by {
        if x == pre.len() {
            assert(device_key(old_merged[idx]) == device_key(now[x]));
        } else {
            assert(now[x] == pre[x]);
            assert(kept_for(old_merged, pre[x]));
        }
    }
}

/// Merging an announcement with a key not seen before.
proof fn lemma_merge_new(pre: Seq<Device>, old_merged: Seq<Device>, d: Device)
    requires
        merged_from(pre, old_merged),
        forall|k: int| 0 <= k < old_merged.len() ==> device_key(#[trigger] old_merged[k]) != device_key(d),
    ensures
        merged_from(pre.push(d), old_merged.push(d)),
{
    let now = pre.push(d);
    let merged = old_merged.push(d);
    assert forall|k: int| 0 <= k < merged.len() implies now.contains(#[trigger] merged[k]) by {
        if k == old_merged.len() {
            assert(now[pre.len() as int] == d);
        } else {
            assert(merged[k] == old_merged[k]);
            assert(pre.contains(old_merged[k]));
            let w = choose|w: int| 0 <= w < pre.len() && pre[w] == old_merged[k];
            assert(now[w] == pre[w]);
        }
    }
    assert forall|a: int, b: int| 0 <= a < b < merged.len() implies device_key(#[trigger] merged[a])
        != device_key(#[trigger] merged[b]) by {
        assert(merged[a] == old_merged[a]);
        if b < old_merged.len() {
            assert(merged[b] == old_merged[b]);
        }
    }
    assert forall|x: int| 0 <= x < now.len() implies #[trigger] kept_for(merged, now[x]) by {
        if x == pre.len() {
            lemma_not_replaces_self(d);
            assert(merged[old_merged.len() as int] == d);
        } else {
            assert(now[x] == pre[x]);
            assert(kept_for(old_merged, pre[x]));
            let k = choose|k: int|
                0 <= k < old_merged.len() && device_key(#[trigger] old_merged[k]) == device_key(pre[x])
                    && !replaces(old_merged[k], pre[x]);
            assert(merged[k] == old_merged[k]);
        }
    }
}

/// Merges the device list: one entry per device key, keeping the entry that
/// no other would replace, then orders it (this instance first, then by
/// instance name, device name, address and instance id).
pub fn dedupe_devices(devices: Vec<Device>) -> (out: Vec<Device>)
    ensures
        merged_from(devices@, out@),
        devices_sorted(out@),
{
    let mut merged: Vec<Device> = Vec::new();
    let n = devices.len();
    let mut i: usize = 0;
    while i < n
        invariant
            n == devices@.len(),
            i <= n,
            merged_from(devices@.take(i as int), merged@),
        decreases n - i,
    {
        let d = devices[i].clone();
        let ghost pre = devices@.take(i as int);
        let ghost now = devices@.take(i + 1);
        assert(now =~= pre.push(d));
        let mut found: Option<usize> = None;
        let mut j: usize = 0;
        while j < merged.len()
            invariant_except_break
                found is None,
            invariant
                j <= merged@.len(),
                forall|k: int| 0 <= k < j ==> device_key(#[trigger] merged@[k]) != device_key(d),
            ensures
                found is None ==> forall|k: int|
                    0 <= k < merged@.len() ==> device_key(#[trigger] merged@[k]) != device_key(d),
                found matches Some(x) ==> x < merged@.len() && device_key(merged@[x as int])
                    == device_key(d),
            decreases merged@.len() - j,
        {
            if str_equal(key_of(&merged[j]), key_of(&d)) {
                found = Some(j);
                break;
            }
            j = j + 1;
        }
        let ghost old_merged = merged@;
        match found {
            Some(idx) => {
                if should_replace_device(&merged[idx], &d) {
                    merged.set(idx, d);
                    proof {
                        lemma_merge_replace(pre, old_merged, idx as int, d);
                    }
                } else {
                    proof {
                        lemma_merge_keep(pre, old_merged, idx as int, d);
                    }
                }
            },
            None => {
                merged.push(d);
                proof {
                    lemma_merge_new(pre, old_merged, d);
                }
            },
        }
        i = i + 1;
    }
    assert(devices@.take(n as int) =~= devices@);
    let out = sort_devices(merged);
    proof {
        lemma_merged_reordered(devices@, merged@, out@);
    }
    out
}

/// A reordering of a merged list, with the same entries, is merged too.
proof fn lemma_merged_reordered(input: Seq<Device>, merged: Seq<Device>, out: Seq<Device>)
    requires
        merged_from(input, merged),
        forall|i: int| 0 <= i < out.len() ==> merged.contains(#[trigger] out[i]),
        forall|i: int| 0 <= i < merged.len() ==> out.contains(#[trigger] merged[i]),
        forall|i: int, j: int|
            0 <= i < j < out.len() ==> device_key(#[trigger] out[i]) != device_key(#[trigger] out[j]),
    ensures
        merged_from(input, out),
{
    assert forall|i: int| 0 <= i < out.len() implies input.contains(#[trigger] out[i]) by {
        assert(merged.contains(out[i]));
        let w = choose|w: int| 0 <= w < merged.len() && merged[w] == out[i];
        assert(input.contains(merged[w]));
    }
    assert forall|x: int| 0 <= x < input.len() implies #[trigger] kept_for(out, input[x]) by {
        assert(kept_for(merged, input[x]));
        let k = choose|k: int|
            0 <= k < merged.len() && device_key(#[trigger] merged[k]) == device_key(input[x])
                && !replaces(merged[k], input[x]);
        assert(out.contains(merged[k]));
        let w = choose|w: int| 0 <= w < out.len() && out[w] == merged[k];
        assert(device_key(out[w]) == device_key(input[x]));
    }
}

/// Puts devices in device-list order, keeping the same entries.
fn sort_devices(merged: Vec<Device>) -> (out: Vec<Device>)
    requires
        forall|i: int, j: int|
            0 <= i < j < merged@.len() ==> device_key(#[trigger] merged@[i]) != device_key(
                #[trigger] merged@[j],
            ),
    ensures
        devices_sorted(out@),
        out@.len() == merged@.len(),
        forall|i: int| 0 <= i < out@.len() ==> merged@.contains(#[trigger] out@[i]),
        forall|i: int| 0 <= i < merged@.len() ==> out@.contains(#[trigger] merged@[i]),
        forall|i: int, j: int|
            0 <= i < j < out@.len() ==> device_key(#[trigger] out@[i]) != device_key(
                #[trigger] out@[j],
            ),
{
    let mut out: Vec<Device> = Vec::new();
    let n = merged.len();
    let mut i: usize = 0;
    while i < n
        invariant
            n == merged@.len(),
            i <= n,
            out@.len() == i,
            devices_sorted(out@),
            forall|k: int| 0 <= k < out@.len() ==> merged@.take(i as int).contains(#[trigger] out@[k]),
            forall|k: int| 0 <= k < i ==> out@.contains(#[trigger] merged@[k]),
            forall|a: int, b: int|
                0 <= a < b < merged@.len() ==> device_key(#[trigger] merged@[a]) != device_key(
                    #[trigger] merged@[b],
                ),
        decreases n - i,
    {
        let d = merged[i].clone();
        let mut pos: usize = 0;
        while pos < out.len() && order_devices(&d, &out[pos]) >= 0
            invariant
                pos <= out@.len(),
                forall|k: int| 0 <= k < pos ==> device_order(d, #[trigger] out@[k]) >= 0,
            decreases out@.len() - pos,
        {
            pos = pos + 1;
        }
        let ghost old_out = out@;
        out.insert(pos, d);
        proof {
            assert(out@ == old_out.insert(pos as int, d));
            assert forall|a: int, b: int| 0 <= a < b < out@.len() implies device_order(
                #[trigger] out@[a],
                #[trigger] out@[b],
            ) <= 0 by {
                if b < pos {
                    assert(out@[a] == old_out[a] && out@[b] == old_out[b]);
                } else if b == pos {
                    assert(out@[a] == old_out[a]);
                    lemma_device_order_antisym(d, old_out[a]);
                } else if a == pos {
                    assert(out@[b] == old_out[b - 1]);
                    assert(device_order(d, old_out[pos as int]) < 0);
                    if b - 1 > pos {
                        assert(device_order(old_out[pos as int], old_out[b - 1]) <= 0);
                        lemma_device_order_trans(d, old_out[pos as int], old_out[b - 1]);
                    }
                } else if a < pos {
                    assert(out@[a] == old_out[a] && out@[b] == old_out[b - 1]);
                } else {
                    assert(out@[a] == old_out[a - 1] && out@[b] == old_out[b - 1]);
                }
            }
            let now = merged@.take(i + 1);
            assert forall|k: int| 0 <= k < out@.len() implies now.contains(#[trigger] out@[k]) by {
                if k == pos {
                    assert(now[i as int] == d);
                } else {
                    let o = if k < pos {
                        k
                    } else {
                        k - 1
                    };
                    assert(out@[k] == old_out[o]);
                    let w = choose|w: int| 0 <= w < i && merged@.take(i as int)[w] == old_out[o];
                    assert(now[w] == merged@[w]);
                }
            }
            assert forall|k: int| 0 <= k < i + 1 implies out@.contains(#[trigger] merged@[k]) by {
                if k == i {
                    assert(out@[pos as int] == merged@[k]);
                } else {
                    let w = choose|w: int| 0 <= w < old_out.len() && old_out[w] == merged@[k];
                    if w < pos {
                        assert(out@[w] == old_out[w]);
                    } else {
                        assert(out@[w + 1] == old_out[w]);
                    }
                }
            }
        }
        i = i + 1;
    }
    proof {
        assert(merged@.take(n as int) =~= merged@);
        assert forall|a: int, b: int| 0 <= a < b < out@.len() implies device_key(
            #[trigger] out@[a],
        ) != device_key(#[trigger] out@[b]) by {
            out_distinct_positions(out@, merged@, a, b);
            let wa = choose|w: int| 0 <= w < n && merged@[w] == out@[a];
            let wb = choose|w: int| 0 <= w < n && merged@[w] == out@[b];
            assert(wa != wb);
        }
    }
    out
}

/// Two positions of a copy that holds every entry of a source with pairwise
/// distinct keys, and is no longer than it, hold different entries.
proof fn out_distinct_positions(out: Seq<Device>, merged: Seq<Device>, a: int, b: int)
    requires
        0 <= a < b < out.len(),
        out.len() == merged.len(),
        forall|i: int| 0 <= i < merged.len() ==> out.contains(#[trigger] merged[i]),
        forall|i: int, j: int|
            0 <= i < j < merged.len() ==> device_key(#[trigger] merged[i]) != device_key(
                #[trigger] merged[j],
            ),
    ensures
        out[a] != out[b],
{
    broadcast use vstd::seq_lib::seq_to_set_is_finite;

    if out[a] == out[b] {
        assert forall|i: int, j: int|
            0 <= i < merged.len() && 0 <= j < merged.len() && i != j implies merged[i]
            != merged[j] by {
            if i < j {
                assert(device_key(merged[i]) != device_key(merged[j]));
            } else {
                assert(device_key(merged[j]) != device_key(merged[i]));
            }
        }
        assert(merged.no_duplicates());
        merged.unique_seq_to_set();
        let rest = out.remove(b);
        assert forall|x: Device| merged.to_set().contains(x) implies rest.to_set().contains(x) by {
            assert(merged.contains(x));
            let i = choose|i: int| 0 <= i < merged.len() && merged[i] == x;
            assert(out.contains(merged[i]));
            let w = choose|w: int| 0 <= w < out.len() && out[w] == merged[i];
            if w < b {
                assert(rest[w] == x);
            } else if w == b {
                assert(rest[a] == x);
            } else {
                assert(rest[w - 1] == x);
            }
            assert(rest.contains(x));
        }
        assert(merged.to_set().subset_of(rest.to_set()));
        rest.lemma_cardinality_of_set();
        vstd::set_lib::lemma_len_subset(merged.to_set(), rest.to_set());
    }
}

// ---------------------------------------------------------------------------
// Accepting announcements and expiring devices.
// ---------------------------------------------------------------------------

/// Announcements from the same instance closer together than this are dropped.
pub const MIN_RECV_INTERVAL_MS: u64 = 500;

/// A device not heard from for this long is forgotten.
pub const HEARTBEAT_TIMEOUT_NANOS: u64 = 15_000_000_000;

/// What is remembered of the last announcement accepted from an instance.
#[derive(Debug, Clone, Copy, PartialEq, Eq, Structural)]
pub struct LastHeard {
    /// The announcement's own timestamp.
    pub timestamp: u64,
    /// Milliseconds since it was accepted.
    pub elapsed_ms: u64,
}

/// Whether an announcement is taken in: not our own, and, when the
/// instance was heard before, strictly newer by its timestamp and at least
/// 500 ms after the last one accepted.
pub open spec fn accepts_announcement(
    own_instance_id: Seq<char>,
    instance_id: Seq<char>,
    timestamp: u64,
    last: Option<LastHeard>,
) -> bool {
    &&& instance_id != own_instance_id
    &&& match last {
        Some(l) => timestamp > l.timestamp && l.elapsed_ms >= MIN_RECV_INTERVAL_MS,
        None => true,
    }
}

pub fn accept_announcement(
    own_instance_id: &str,
    instance_id: &str,
    timestamp: u64,
    last: Option<LastHeard>,
) -> (ok: bool)
    ensures
        ok == accepts_announcement(own_instance_id@, instance_id@, timestamp, last),
{
    if str_equal(instance_id, own_instance_id) {
        return false;
    }
    match last {
        Some(l) => !(timestamp <= l.timestamp || l.elapsed_ms < MIN_RECV_INTERVAL_MS),
        None => true,
    }
}

/// Whether a device last seen at `last_seen` is kept at time `now` (both in
/// nanoseconds since the epoch): it must not lie in the future and must be
/// less than 15 seconds old.
pub fn is_device_fresh(now: u64, last_seen: u64) -> (keep: bool)
    ensures
        keep == (last_seen <= now && now - last_seen < HEARTBEAT_TIMEOUT_NANOS),
{
    last_seen <= now && now - last_seen < HEARTBEAT_TIMEOUT_NANOS
}

/// The devices still kept at time `now`.
pub open spec fn fresh_at(now: u64) -> spec_fn(Device) -> bool {
    |d: Device| d.last_seen <= now && now - d.last_seen < HEARTBEAT_TIMEOUT_NANOS
}

/// The devices dropped at time `now`.
pub open spec fn stale_at(now: u64) -> spec_fn(Device) -> bool {
    |d: Device| !(d.last_seen <= now && now - d.last_seen < HEARTBEAT_TIMEOUT_NANOS)
}

/// The instance ids of a list of devices.
pub open spec fn instance_ids(s: Seq<Device>) -> Seq<Seq<char>> {
    s.map_values(|d: Device| d.instance_id@)
}

/// Drops the devices that are no longer fresh at `now`; returns the instance
/// ids of the dropped ones (whose rate-limit records go too).
pub fn cleanup_stale_devices(devices: &mut Vec<Device>, now: u64) -> (dropped: Vec<String>)
    ensures
        final(devices)@ == old(devices)@.filter(fresh_at(now)),
        id_list(dropped@) == instance_ids(old(devices)@.filter(stale_at(now))),
{
    let ghost src = devices@;
    let mut kept: Vec<Device> = Vec::new();
    let mut dropped: Vec<String> = Vec::new();
    let n = devices.len();
    let mut i: usize = 0;
    while i < n
        invariant
            n == devices@.len(),
            src == devices@,
            i <= n,
            kept@ == src.take(i as int).filter(fresh_at(now)),
            id_list(dropped@) == instance_ids(src.take(i as int).filter(stale_at(now))),
        decreases n - i,
    {
        let d = devices[i].clone();
        proof {
            assert(src.take(i + 1) =~= src.take(i as int).push(d));
            src.take(i as int).lemma_filter_push(d, fresh_at(now));
            src.take(i as int).lemma_filter_push(d, stale_at(now));
        }
        if is_device_fresh(now, d.last_seen) {
            kept.push(d);
        } else {
            let ghost before = dropped@;
            dropped.push(d.instance_id.clone());
            proof {
                let f = src.take(i as int).filter(stale_at(now));
                assert(id_list(dropped@) =~= id_list(before).push(d.instance_id@));
                assert(instance_ids(f.push(d)) =~= instance_ids(f).push(d.instance_id@));
            }
        }
        i = i + 1;
    }
    assert(src.take(n as int) =~= src);
    *devices = kept;
    dropped
}

// ---------------------------------------------------------------------------
// The broadcast schedule.
// ---------------------------------------------------------------------------

/// Broadcasts are at least this far apart.
pub const MIN_BROADCAST_INTERVAL_MS: u64 = 3000;

/// Known peers are reached by unicast, but a full broadcast is still sent
/// at least this often.
pub const FULL_BROADCAST_INTERVAL_MS: u64 = 30000;

#[derive(Debug, Clone, Copy, PartialEq, Eq, Structural)]
pub struct BroadcastPlan {
    /// How long to wait before sending, to keep broadcasts apart.
    pub wait_ms: u64,
    /// Whether to broadcast to every discovery port, rather than unicast to
    /// the known peers.
    pub full: bool,
}

/// The next send of the announcement loop.  A full broadcast happens when it
/// was asked for, when no peer is known, or when the last full broadcast is
/// missing or 30 s old; the send waits until 3 s have passed since the last.
pub open spec fn broadcast_plan_of(
    forced: bool,
    known_peers: nat,
    since_last_broadcast_ms: Option<u64>,
    since_last_full_ms: Option<u64>,
) -> BroadcastPlan {
    BroadcastPlan {
        wait_ms: match since_last_broadcast_ms {
            Some(e) => if e < MIN_BROADCAST_INTERVAL_MS {
                (MIN_BROADCAST_INTERVAL_MS - e) as u64
            } else {
                0
            },
            None => 0,
        },
        full: forced || known_peers == 0 || match since_last_full_ms {
            Some(e) => e >= FULL_BROADCAST_INTERVAL_MS,
            None => true,
        },
    }
}

pub fn broadcast_plan(
    forced: bool,
    known_peers: usize,
    since_last_broadcast_ms: Option<u64>,
    since_last_full_ms: Option<u64>,
) -> (p: BroadcastPlan)
    ensures
        p == broadcast_plan_of(
            forced,
            known_peers as nat,
            since_last_broadcast_ms,
            since_last_full_ms,
        ),
{
    let wait_ms = match since_last_broadcast_ms {
        Some(e) => if e < MIN_BROADCAST_INTERVAL_MS {
            MIN_BROADCAST_INTERVAL_MS - e
        } else {
            0
        },
        None => 0,
    };
    let full = forced || known_peers == 0 || match since_last_full_ms {
        Some(e) => e >= FULL_BROADCAST_INTERVAL_MS,
        None => true,
    };
    BroadcastPlan { wait_ms, full }
}

// ---------------------------------------------------------------------------
// The announcement.
// ---------------------------------------------------------------------------

/// The announcement an instance broadcasts.
#[derive(Debug)]
pub struct DiscoveryMessage {
    pub device_id: String,
    pub instance_id: String,
    pub device_name: String,
    pub instance_name: String,
    pub version: String,
    pub port: u16,
    /// Seconds since the Unix epoch when the announcement was made.
    pub timestamp: u64,
    pub public_transfer_addr: Option<String>,
}

impl Clone for DiscoveryMessage {
    fn clone(&self) -> (r: Self)
        ensures
            r == *self,
    {
        DiscoveryMessage {
            device_id: self.device_id.clone(),
            instance_id: self.instance_id.clone(),
            device_name: self.device_name.clone(),
            instance_name: self.instance_name.clone(),
            version: self.version.clone(),
            port: self.port,
            timestamp: self.timestamp,
            public_transfer_addr: clone_opt_string(&self.public_transfer_addr),
        }
    }
}

/// Seconds since the Unix epoch (`SystemTime::now().duration_since(UNIX_EPOCH)`,
/// `as_secs`; zero for a clock set before the epoch).
#[verifier::external_body]
pub(crate) fn unix_time_secs() -> (t: u64)
{
    std::time::SystemTime::now().duration_since(std::time::UNIX_EPOCH).unwrap_or_default().as_secs()
}

impl DiscoveryMessage {
    /// A fresh announcement, stamped with the current time, with no public
    /// address yet.
    pub fn new(
        device_id: String,
        instance_id: String,
        device_name: String,
        instance_name: String,
        port: u16,
    ) -> (m: DiscoveryMessage)
        ensures
            m.device_id == device_id,
            m.instance_id == instance_id,
            m.device_name == device_name,
            m.instance_name == instance_name,
            m.version@ == PROTOCOL_VERSION@,
            m.port == port,
            m.public_transfer_addr is None,
    {
        DiscoveryMessage {
            device_id,
            instance_id,
            device_name,
            instance_name,
            version: PROTOCOL_VERSION.to_string(),
            port,
            timestamp: unix_time_secs(),
            public_transfer_addr: None,
        }
    }

    /// The device entry for an accepted announcement heard from `ip` on
    /// `discovery_port` at time `now` (nanoseconds since the epoch).
    pub fn to_device(&self, ip: String, discovery_port: u16, now: u64) -> (d: Device)
        ensures
            d.device_id == self.device_id,
            d.instance_id == self.instance_id,
            d.device_name == self.device_name,
            d.instance_name == self.instance_name,
            d.ip == ip,
            d.port == self.port,
            d.version == self.version,
            d.last_seen == now,
            !d.is_self,
            d.public_transfer_addr == self.public_transfer_addr,
            d.discovery_port == discovery_port,
    {
        Device {
            device_id: self.device_id.clone(),
            instance_id: self.instance_id.clone(),
            device_name: self.device_name.clone(),
            instance_name: self.instance_name.clone(),
            ip,
            port: self.port,
            version: self.version.clone(),
            last_seen: now,
            is_self: false,
            public_transfer_addr: clone_opt_string(&self.public_transfer_addr),
            discovery_port,
        }
    }

    /// This instance's own entry in the device list, on the loopback address.
    pub fn local_device(
        &self,
        public_transfer_addr: Option<String>,
        discovery_port: u16,
        now: u64,
    ) -> (d: Device)
        ensures
            d.device_id == self.device_id,
            d.instance_id == self.instance_id,
            d.device_name == self.device_name,
            d.instance_name == self.instance_name,
            d.ip@ == "127.0.0.1"@,
            d.port == self.port,
            d.version == self.version,
            d.last_seen == now,
            d.is_self,
            d.public_transfer_addr == public_transfer_addr,
            d.discovery_port == discovery_port,
    {
        Device {
            device_id: self.device_id.clone(),
            instance_id: self.instance_id.clone(),
            device_name: self.device_name.clone(),
            instance_name: self.instance_name.clone(),
            ip: "127.0.0.1".to_string(),
            port: self.port,
            version: self.version.clone(),
            last_seen: now,
            is_self: true,
            public_transfer_addr,
            discovery_port,
        }
    }
}

// ---------------------------------------------------------------------------
// The devices heard of, and when each instance was last heard.
// ---------------------------------------------------------------------------

pub open spec fn instance_is(id: Seq<char>) -> spec_fn(Device) -> bool {
    |d: Device| d.instance_id@ == id
}

/// The devices heard of, by instance id.
pub struct DeviceTable {
    devices: Vec<Device>,
}

impl DeviceTable {
    pub closed spec fn devices_view(&self) -> Seq<Device> {
        self.devices@
    }

    pub fn new() -> (t: DeviceTable)
        ensures
            t.devices_view() == Seq::<Device>::empty(),
    {
        DeviceTable { devices: Vec::new() }
    }

    fn find(&self, instance_id: &str) -> (r: Option<usize>)
        ensures
            match r {
                Some(i) => i < self.devices@.len() && i == first_where(self.devices@, instance_is(instance_id@)),
                None => first_where(self.devices@, instance_is(instance_id@)) == -1,
            },
    {
        let ghost p = instance_is(instance_id@);
        let mut i: usize = 0;
        while i < self.devices.len()
            invariant
                i <= self.devices@.len(),
                p == instance_is(instance_id@),
                forall|k: int| 0 <= k < i ==> !p(#[trigger] self.devices@[k]),
            decreases self.devices@.len() - i,
        {
            if str_equal(self.devices[i].instance_id.as_str(), instance_id) {
                proof {
                    lemma_first_where(self.devices@, p, i as int);
                }
                return Some(i);
            }
            i = i + 1;
        }
        proof {
            lemma_first_where(self.devices@, p, i as int);
        }
        None
    }

    /// Records a device heard from, replacing what was known of its instance.
    pub fn insert(&mut self, device: Device)
        ensures
            ({
                let s = old(self).devices_view();
                let i = first_where(s, instance_is(device.instance_id@));
                final(self).devices_view() == if i >= 0 {
                    s.update(i, device)
                } else {
                    s.push(device)
                }
            }),
    {
        match self.find(device.instance_id.as_str()) {
            Some(i) => {
                self.devices.set(i, device);
            },
            None => {
                self.devices.push(device);
            },
        }
    }

    /// What is known of instance `instance_id`.
    pub fn get_device(&self, instance_id: &str) -> (r: Option<Device>)
        ensures
            ({
                let s = self.devices_view();
                let i = first_where(s, instance_is(instance_id@));
                if i >= 0 {
                    r == Some(s[i])
                } else {
                    r is None
                }
            }),
    {
        match self.find(instance_id) {
            Some(i) => Some(self.devices[i].clone()),
            None => None,
        }
    }

    /// Forgets the devices not heard from recently (see
    /// [`cleanup_stale_devices`]); gives back their instance ids.
    pub fn remove_stale(&mut self, now: u64) -> (dropped: Vec<String>)
        ensures
            final(self).devices_view() == old(self).devices_view().filter(fresh_at(now)),
            id_list(dropped@) == instance_ids(old(self).devices_view().filter(stale_at(now))),
    {
        cleanup_stale_devices(&mut self.devices, now)
    }

    /// The device list shown: every device heard of and this instance's own
    /// entry, merged and ordered (see [`dedupe_devices`]).
    pub fn get_devices(&self, local: Device) -> (out: Vec<Device>)
        ensures
            merged_from(self.devices_view().push(local), out@),
            devices_sorted(out@),
    {
        let mut all: Vec<Device> = Vec::new();
        let mut i: usize = 0;
        while i < self.devices.len()
            invariant
                i <= self.devices@.len(),
                all@ == self.devices@.take(i as int),
            decreases self.devices@.len() - i,
        {
            all.push(self.devices[i].clone());
            i = i + 1;
            assert(all@ =~= self.devices@.take(i as int));
        }
        assert(self.devices@.take(self.devices@.len() as int) =~= self.devices@);
        all.push(local);
        dedupe_devices(all)
    }
}

/// When an announcement from an instance was last taken in.
pub struct HeardEntry {
    instance_id: String,
    timestamp: u64,
    at_ms: u64,
}

/// The last announcement taken in from each instance, which limits how
/// often announcements are taken in.
pub struct HeardTable {
    entries: Vec<HeardEntry>,
}

pub open spec fn heard_is(id: Seq<char>) -> spec_fn((Seq<char>, u64, u64)) -> bool {
    |e: (Seq<char>, u64, u64)| e.0 == id
}

impl HeardTable {
    /// Instance id, announcement timestamp and when it was taken in
    /// (monotonic milliseconds), for each instance heard.
    pub closed spec fn entries_view(&self) -> Seq<(Seq<char>, u64, u64)> {
        self.entries@.map_values(|e: HeardEntry| (e.instance_id@, e.timestamp, e.at_ms))
    }

    pub fn new() -> (t: HeardTable)
        ensures
            t.entries_view() == Seq::<(Seq<char>, u64, u64)>::empty(),
    {
        let t = HeardTable { entries: Vec::new() };
        assert(t.entries_view() =~= Seq::<(Seq<char>, u64, u64)>::empty());
        t
    }

    fn find(&self, instance_id: &str) -> (r: Option<usize>)
        ensures
            match r {
                Some(i) => i < self.entries@.len() && i == first_where(self.entries_view(), heard_is(instance_id@)),
                None => first_where(self.entries_view(), heard_is(instance_id@)) == -1,
            },
    {
        let ghost s = self.entries_view();
        let ghost p = heard_is(instance_id@);
        let mut i: usize = 0;
        while i < self.entries.len()
            invariant
                i <= self.entries@.len(),
                s == self.entries_view(),
                p == heard_is(instance_id@),
                forall|k: int| 0 <= k < i ==> !p(#[trigger] s[k]),
            decreases self.entries@.len() - i,
        {
            assert(s[i as int] == (self.entries@[i as int].instance_id@, self.entries@[i as int].timestamp, self.entries@[i as int].at_ms));
            if str_equal(self.entries[i].instance_id.as_str(), instance_id) {
                proof {
                    lemma_first_where(s, p, i as int);
                }
                return Some(i);
            }
            i = i + 1;
        }
        proof {
            lemma_first_where(s, p, i as int);
        }
        None
    }

    /// Decides whether the announcement of `instance_id` stamped `timestamp`
    /// is taken in at `now_ms` (see [`accepts_announcement`], the time since
    /// the last one being `now_ms` less when it was taken in, or zero for a
    /// clock that went back), and records it when it is.
    pub fn take_in(&mut self, own_instance_id: &str, instance_id: &str, timestamp: u64, now_ms: u64) -> (ok: bool)
        ensures
            ({
                let s = old(self).entries_view();
                let i = first_where(s, heard_is(instance_id@));
                let last = if i >= 0 {
                    Some(LastHeard {
                        timestamp: s[i].1,
                        elapsed_ms: if now_ms >= s[i].2 { (now_ms - s[i].2) as u64 } else { 0 },
                    })
                } else {
                    None
                };
                &&& ok == accepts_announcement(own_instance_id@, instance_id@, timestamp, last)
                &&& final(self).entries_view() == if !ok {
                    s
                } else if i >= 0 {
                    s.update(i, (instance_id@, timestamp, now_ms))
                } else {
                    s.push((instance_id@, timestamp, now_ms))
                }
            }),
    {
        let found = self.find(instance_id);
        let last = match found {
            Some(i) => {
                let e = &self.entries[i];
                Some(LastHeard {
                    timestamp: e.timestamp,
                    elapsed_ms: if now_ms >= e.at_ms {
                        now_ms - e.at_ms
                    } else {
                        0
                    },
                })
            },
            None => None,
        };
        let ok = accept_announcement(own_instance_id, instance_id, timestamp, last);
        if ok {
            let e = HeardEntry { instance_id: instance_id.to_string(), timestamp, at_ms: now_ms };
            let ghost s = self.entries_view();
            match found {
                Some(i) => {
                    self.entries.set(i, e);
                    assert(self.entries_view() =~= s.update(i as int, (instance_id@, timestamp, now_ms)));
                },
                None => {
                    self.entries.push(e);
                    assert(self.entries_view() =~= s.push((instance_id@, timestamp, now_ms)));
                },
            }
        }
        ok
    }

    /// Forgets instance `instance_id`.
    pub fn forget(&mut self, instance_id: &str)
        ensures
            final(self).entries_view() == old(self).entries_view().filter(
                |e: (Seq<char>, u64, u64)| e.0 != instance_id@,
            ),
    {
        let ghost src = self.entries_view();
        let ghost keep = |e: (Seq<char>, u64, u64)| e.0 != instance_id@;
        let mut kept: Vec<HeardEntry> = Vec::new();
        let mut i: usize = 0;
        while i < self.entries.len()
            invariant
                i <= self.entries@.len(),
                src == self.entries_view(),
                keep == (|e: (Seq<char>, u64, u64)| e.0 != instance_id@),
                kept@.map_values(|e: HeardEntry| (e.instance_id@, e.timestamp, e.at_ms)) == src.take(i as int).filter(keep),
            decreases self.entries@.len() - i,
        {
            let e = &self.entries[i];
            let ghost ev = (e.instance_id@, e.timestamp, e.at_ms);
            proof {
                assert(src.take(i + 1) =~= src.take(i as int).push(ev));
                src.take(i as int).lemma_filter_push(ev, keep);
            }
            if !str_equal(e.instance_id.as_str(), instance_id) {
                let ghost before = kept@;
                kept.push(HeardEntry { instance_id: e.instance_id.clone(), timestamp: e.timestamp, at_ms: e.at_ms });
                assert(kept@.map_values(|e: HeardEntry| (e.instance_id@, e.timestamp, e.at_ms)) =~= before.map_values(
                    |e: HeardEntry| (e.instance_id@, e.timestamp, e.at_ms),
                ).push(ev));
            }
            i = i + 1;
        }
        assert(src.take(src.len() as int) =~= src);
        self.entries = kept;
    }
}

/// Every device list that is handed out holds one entry per device key.
pub proof fn law_device_list_has_one_entry_per_device(input: Seq<Device>, out: Seq<Device>)
    requires
        merged_from(input, out),
    ensures
        forall|i: int, j: int|
            0 <= i < out.len() && 0 <= j < out.len() && i != j ==> device_key(out[i])
                != device_key(out[j]),
{
    assert forall|i: int, j: int|
        0 <= i < out.len() && 0 <= j < out.len() && i != j implies device_key(out[i])
        != device_key(out[j]) by {
        if i < j {
            assert(device_key(out[i]) != device_key(out[j]));
        } else {
            assert(device_key(out[j]) != device_key(out[i]));
        }
    }
}

/// An instance's own entry is never replaced by another entry for the same
/// device: when the list is merged, the entry kept for that device is its own.
pub proof fn law_self_entry_wins(input: Seq<Device>, out: Seq<Device>, s: int)
    requires
        merged_from(input, out),
        0 <= s < input.len(),
        input[s].is_self,
    ensures
        exists|i: int| 0 <= i < out.len() && device_key(out[i]) == device_key(input[s]) && out[i].is_self,
{
    assert(kept_for(out, input[s]));
    let i = choose|i: int|
        0 <= i < out.len() && device_key(#[trigger] out[i]) == device_key(input[s]) && !replaces(
            out[i],
            input[s],
        );
    assert(out[i].is_self);
}

} // verus!
