//! The signalling protocol between instances and the rendezvous server:
//! registration, friends and their addresses, invite codes, relayed chat
//! messages and relay sessions.  Messages travel as length-prefixed JSON;
//! the encoding is done outside the library.
use vstd::prelude::*;
use crate::config::{generate_instance_id, hyphenated_uuid, is_lower_hex_digit};
use crate::share::{opt_view, clone_opt};
use crate::text::string_of;

verus! {

/// What the server tells about a friend.
#[derive(Debug)]
pub struct FriendInfo {
    pub device_id: String,
    pub instance_name: String,
    pub online: bool,
    pub transfer_addr: Option<String>,
    pub iroh_addr: Option<String>,
}

pub struct FriendView {
    pub device_id: Seq<char>,
    pub instance_name: Seq<char>,
    pub online: bool,
    pub transfer_addr: Option<Seq<char>>,
    pub iroh_addr: Option<Seq<char>>,
}

impl View for FriendInfo {
    type V = FriendView;

    open spec fn view(&self) -> FriendView {
        FriendView {
            device_id: self.device_id@,
            instance_name: self.instance_name@,
            online: self.online,
            transfer_addr: opt_view(self.transfer_addr),
            iroh_addr: opt_view(self.iroh_addr),
        }
    }
}

impl Clone for FriendInfo {
    fn clone(&self) -> (r: Self)
        ensures
            r == *self,
    {
        FriendInfo {
            device_id: self.device_id.clone(),
            instance_name: self.instance_name.clone(),
            online: self.online,
            transfer_addr: clone_opt(&self.transfer_addr),
            iroh_addr: clone_opt(&self.iroh_addr),
        }
    }
}

pub open spec fn friends_view(v: Seq<FriendInfo>) -> Seq<FriendView> {
    v.map_values(|f: FriendInfo| f@)
}

/// A chat message kept by the server for a device that was offline.
#[derive(Debug)]
pub struct OfflineMsg {
    pub from_device_id: String,
    pub from_instance_name: String,
    pub content: String,
    pub timestamp: u64,
}

impl Clone for OfflineMsg {
    fn clone(&self) -> (r: Self)
        ensures
            r == *self,
    {
        OfflineMsg {
            from_device_id: self.from_device_id.clone(),
            from_instance_name: self.from_instance_name.clone(),
            content: self.content.clone(),
            timestamp: self.timestamp,
        }
    }
}

/// What an instance sends the server.
#[derive(Debug)]
pub enum C2sMsg {
    Register { device_id: String, instance_name: String, transfer_addr: String, nat_type: String },
    GenerateInvite,
    AcceptInvite { code: String },
    RelayMessage { to_device_id: String, content: String, timestamp: u64 },
    UpdateTransferAddr { transfer_addr: String },
    UpdateIrohAddr { iroh_addr: String },
    RequestRelay { to_device_id: String },
    Heartbeat,
}

/// What the server sends an instance.
#[derive(Debug)]
pub enum S2cMsg {
    Registered {
        friends: Vec<FriendInfo>,
        observed_addr: String,
        relay_addr: Option<String>,
        stun_addr: Option<String>,
        iroh_relay_url: Option<String>,
    },
    InviteCode { code: String },
    InviteResult { success: bool, friend: Option<FriendInfo>, error: Option<String> },
    FriendOnline { device_id: String, instance_name: String, transfer_addr: String, iroh_addr: Option<String> },
    FriendOffline { device_id: String },
    RelayedMessage { from_device_id: String, from_instance_name: String, content: String, timestamp: u64 },
    OfflineMessages { messages: Vec<OfflineMsg> },
    RelayReady { session_key: String, relay_addr: String },
    Error { message: String },
}

/// The state of an instance's link to the server.
#[derive(Debug, Clone, Copy, PartialEq, Eq, Structural)]
pub enum SignalStatus {
    Disconnected,
    Connecting,
    Connected,
}

/// The upper-case form of a lower-case hexadecimal digit.
pub open spec fn upper_hex(c: char) -> char {
    if 'a' <= c <= 'f' {
        ((c as u32) - 32) as char
    } else {
        c
    }
}

/// The invite code made from a UUID's text: its first eight hexadecimal
/// digits, upper-cased (the first eight characters come before any `-`).
pub open spec fn invite_code_of(uuid: Seq<char>) -> Seq<char> {
    uuid.take(8).map_values(|c: char| upper_hex(c))
}

/// The invite code for a UUID's text.
pub fn invite_code_from(uuid: &str) -> (code: String)
    requires
        hyphenated_uuid(uuid@),
    ensures
        code@ == invite_code_of(uuid@),
        code@.len() == 8,
{
    let c = crate::text::chars_of(uuid);
    let mut out: Vec<char> = Vec::new();
    let mut i: usize = 0;
    while i < 8
        invariant
            i <= 8,
            c@ == uuid@,
            hyphenated_uuid(uuid@),
            out@ == uuid@.take(i as int).map_values(|c: char| upper_hex(c)),
        decreases 8 - i,
    {
        let ch = c[i];
        assert(is_lower_hex_digit(uuid@[i as int]));
        let up = if 'a' <= ch && ch <= 'f' {
            ((ch as u32) - 32) as u8 as char
        } else {
            ch
        };
        proof {
            if 'a' <= ch && ch <= 'f' {
                assert(((ch as u32) - 32) as u8 as char == ((ch as u32) - 32) as char);
            }
        }
        out.push(up);
        i = i + 1;
        assert(out@ =~= uuid@.take(i as int).map_values(|c: char| upper_hex(c)));
    }
    string_of(out.as_slice())
}

/// A fresh random invite code: eight upper-case hexadecimal digits taken
/// from a new random UUID.
pub fn generate_code() -> (code: String)
    ensures
        code@.len() == 8,
        forall|i: int|
            0 <= i < 8 ==> ('0' <= #[trigger] code@[i] <= '9') || ('A' <= code@[i] <= 'F'),
{
    let id = generate_instance_id();
    let code = invite_code_from(id.as_str());
    proof {
        assert forall|i: int| 0 <= i < 8 implies ('0' <= #[trigger] code@[i] <= '9') || ('A' <= code@[i]
            <= 'F') by {
            assert(is_lower_hex_digit(id@[i]));
        }
    }
    code
}

} // verus!
