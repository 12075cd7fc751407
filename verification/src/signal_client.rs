//! An instance's side of the signalling link: what it sends the server,
//! and what it makes of each message the server sends (its friend list, its
//! own public address, answers to pending invite requests, chat messages
//! to store).  The caller runs the connection and performs the actions.
use vstd::prelude::*;
use crate::config::{generate_instance_id, hyphenated_uuid};
use crate::lists::{first_where, lemma_first_where, lemma_first_where_props};
use crate::message_store::ChatMessage;
use crate::share::{opt_view, clone_opt};
use crate::signal::{C2sMsg, FriendInfo, FriendView, S2cMsg, SignalStatus, friends_view};
use crate::text::{
    chars_of, string_of, str_equal, parse_unsigned, parse_unsigned_chars, decimal, push_decimal, nonblank_fields,
    split_nonblank,
};

verus! {

/// What the caller does after a server message.
#[derive(Debug)]
pub enum ClientAction {
    /// Send this to the server.
    Send(C2sMsg),
    /// Hand this code to the pending invite request.
    InviteCode(String),
    /// Hand this outcome to the pending invite acceptance.
    AcceptResult(Result<FriendInfo, String>),
    /// Store this message in the conversation with `peer`.
    Save { peer: String, message: ChatMessage },
}

/// The error a send without a link to the server gives.
pub open spec fn not_connected_text() -> Seq<char> {
    "未连接到信令服务器"@
}

fn not_connected_error() -> (e: String)
    ensures
        e@ == not_connected_text(),
{
    "未连接到信令服务器".to_string()
}

/// The characters after the last `:` of `s` (all of `s` when it has none).
pub open spec fn after_last_colon(s: Seq<char>) -> Seq<char>
    decreases s.len(),
{
    if s.len() == 0 {
        s
    } else if s.last() == ':' {
        Seq::empty()
    } else {
        after_last_colon(s.drop_last()).push(s.last())
    }
}

/// The port at the end of an address `host:port`, or 0 when it does not
/// end in one.
pub open spec fn port_of(addr: Seq<char>) -> nat {
    match parse_unsigned(after_last_colon(addr), 65535) {
        Some(p) => p,
        None => 0,
    }
}

/// The signalling servers a configured address names, in the order to try
/// them: the comma-separated entries, trimmed, empty ones left out.
pub fn server_candidates(addrs: &str) -> (r: Vec<String>)
    ensures
        r@.len() == nonblank_fields(addrs@, ',').len(),
        forall|i: int| 0 <= i < r@.len() ==> #[trigger] r@[i]@ == nonblank_fields(addrs@, ',')[i],
{
    let fields = split_nonblank(addrs, ',');
    let mut r: Vec<String> = Vec::new();
    let mut i: usize = 0;
    while i < fields.len()
        invariant
            i <= fields@.len(),
            r@.len() == i,
            fields@.len() == nonblank_fields(addrs@, ',').len(),
            forall|k: int| 0 <= k < fields@.len() ==> #[trigger] fields@[k]@ == nonblank_fields(addrs@, ',')[k],
            forall|k: int| 0 <= k < i ==> #[trigger] r@[k]@ == nonblank_fields(addrs@, ',')[k],
        decreases fields@.len() - i,
    {
        r.push(string_of(fields[i].as_slice()));
        i = i + 1;
    }
    r
}

/// The port at the end of `addr`, or 0.
pub fn port_of_addr(addr: &str) -> (p: u16)
    ensures
        p == port_of(addr@),
{
    let c = chars_of(addr);
    let mut start: usize = c.len();
    assert(c@.take(c@.len() as int) =~= c@);
    assert(c@.subrange(c@.len() as int, c@.len() as int) =~= Seq::<char>::empty());
    assert(after_last_colon(c@) =~= after_last_colon(c@.take(start as int)) + c@.subrange(start as int, c@.len() as int));
    while start > 0 && c[start - 1] != ':'
        invariant
            start <= c@.len(),
            after_last_colon(c@) == after_last_colon(c@.take(start as int)) + c@.subrange(
                start as int,
                c@.len() as int,
            ),
        decreases start,
    {
        let ghost p = c@.take(start as int);
        assert(p.drop_last() =~= c@.take(start - 1));
        assert(p.last() == c@[start - 1]);
        assert(c@.subrange(start - 1, c@.len() as int) =~= seq![c@[start - 1]] + c@.subrange(
            start as int,
            c@.len() as int,
        ));
        assert(after_last_colon(p) =~= after_last_colon(p.drop_last()).push(p.last()));
        assert(after_last_colon(c@.take(start - 1)) + c@.subrange(start - 1, c@.len() as int)
            =~= after_last_colon(p) + c@.subrange(start as int, c@.len() as int));
        start = start - 1;
    }
    proof {
        if start > 0 {
            let p = c@.take(start as int);
            assert(p.last() == c@[start - 1]);
            assert(after_last_colon(p) =~= Seq::<char>::empty());
        } else {
            assert(c@.take(0) =~= Seq::<char>::empty());
        }
        assert(after_last_colon(c@) =~= c@.subrange(start as int, c@.len() as int));
    }
    let mut seg: Vec<char> = Vec::new();
    let mut i: usize = start;
    while i < c.len()
        invariant
            start <= i <= c@.len(),
            seg@ == c@.subrange(start as int, i as int),
        decreases c@.len() - i,
    {
        seg.push(c[i]);
        i = i + 1;
        assert(seg@ =~= c@.subrange(start as int, i as int));
    }
    match parse_unsigned_chars(seg.as_slice(), 65535) {
        Some(v) => v as u16,
        None => 0,
    }
}

/// The address the server saw with the local port: `host:port`.
pub fn observed_transfer_addr(observed: &str, port: u16) -> (a: String)
    ensures
        a@ == observed@ + ":"@ + decimal(port as nat),
{
    let mut v = chars_of(observed);
    v.push(':');
    push_decimal(&mut v, port as u64);
    proof {
        reveal_strlit(":");
    }
    assert(v@ =~= observed@ + ":"@ + decimal(port as nat));
    string_of(v.as_slice())
}

pub open spec fn friend_is(id: Seq<char>) -> spec_fn(FriendView) -> bool {
    |f: FriendView| f.device_id == id
}

/// The client's identity, server and server-given addresses are the same
/// in `a` and `b`.
pub open spec fn same_link(a: SignalClient, b: SignalClient) -> bool {
    &&& a.device_s() == b.device_s()
    &&& a.name_s() == b.name_s()
    &&& a.server_s() == b.server_s()
    &&& a.stun_s() == b.stun_s()
    &&& a.iroh_relay_s() == b.iroh_relay_s()
}

/// Only the friend list differs between `a` and `b`.
pub open spec fn only_friends_differ(a: SignalClient, b: SignalClient) -> bool {
    &&& same_link(a, b)
    &&& a.addr_s() == b.addr_s()
    &&& a.status_s() == b.status_s()
    &&& a.pending_invite_s() == b.pending_invite_s()
    &&& a.pending_accept_s() == b.pending_accept_s()
}

/// A friend came online: its entry is brought up to date, or added.
pub open spec fn friend_came_online(
    pre: SignalClient,
    post: SignalClient,
    device_id: String,
    instance_name: String,
    transfer_addr: String,
    iroh_addr: Option<String>,
) -> bool {
    let s = pre.friends_s();
    let i = first_where(s, friend_is(device_id@));
    let f = FriendView {
        device_id: device_id@,
        instance_name: instance_name@,
        online: true,
        transfer_addr: Some(transfer_addr@),
        iroh_addr: opt_view(iroh_addr),
    };
    &&& post.friends_s() == if i >= 0 {
        s.update(i, f)
    } else {
        s.push(f)
    }
    &&& only_friends_differ(pre, post)
}

/// No two entries of a friend list are for the same device.
pub open spec fn friend_ids_distinct(s: Seq<FriendView>) -> bool {
    forall|a: int, b: int| 0 <= a < b < s.len() ==> (#[trigger] s[a]).device_id != (#[trigger] s[b]).device_id
}

/// A friend that comes online is listed, online and with the addresses it
/// came with; the list grows by one exactly when it was not listed, every
/// other device's entry stays, and a list with one entry per device keeps
/// one entry per device.
pub proof fn law_friend_online_is_listed(
    pre: SignalClient,
    post: SignalClient,
    device_id: String,
    instance_name: String,
    transfer_addr: String,
    iroh_addr: Option<String>,
)
    requires
        friend_came_online(pre, post, device_id, instance_name, transfer_addr, iroh_addr),
    ensures
        exists|k: int|
            0 <= k < post.friends_s().len() && #[trigger] post.friends_s()[k] == (FriendView {
                device_id: device_id@,
                instance_name: instance_name@,
                online: true,
                transfer_addr: Some(transfer_addr@),
                iroh_addr: opt_view(iroh_addr),
            }),
        post.friends_s().len() == pre.friends_s().len() + (if (exists|k: int|
            0 <= k < pre.friends_s().len() && #[trigger] pre.friends_s()[k].device_id == device_id@) {
            0int
        } else {
            1int
        }),
        forall|k: int|
            0 <= k < pre.friends_s().len() && #[trigger] pre.friends_s()[k].device_id != device_id@
                ==> post.friends_s().contains(pre.friends_s()[k]),
        friend_ids_distinct(pre.friends_s()) ==> friend_ids_distinct(post.friends_s()),
{
    let s = pre.friends_s();
    let t = post.friends_s();
    let p = friend_is(device_id@);
    lemma_first_where_props(s, p);
    let i = first_where(s, p);
    let f = FriendView {
        device_id: device_id@,
        instance_name: instance_name@,
        online: true,
        transfer_addr: Some(transfer_addr@),
        iroh_addr: opt_view(iroh_addr),
    };
    if i >= 0 {
        assert(t[i] == f);
        assert(s[i].device_id == device_id@);
        assert forall|k: int| 0 <= k < s.len() && #[trigger] s[k].device_id != device_id@ implies t.contains(s[k]) by {
            assert(t[k] == s[k]);
        }
        assert(friend_ids_distinct(s) ==> friend_ids_distinct(t)) by {
            if friend_ids_distinct(s) {
                assert forall|a: int, b: int| 0 <= a < b < t.len() implies (#[trigger] t[a]).device_id != (
                #[trigger] t[b]).device_id by {
                    if a != i && b != i {
                        assert(t[a] == s[a] && t[b] == s[b]);
                    } else if a == i {
                        assert(t[b] == s[b]);
                        assert(s[a].device_id != s[b].device_id);
                    } else {
                        assert(t[a] == s[a]);
                        assert(s[a].device_id != s[b].device_id);
                    }
                }
            }
        }
    } else {
        assert(t[s.len() as int] == f);
        assert(!(exists|k: int| 0 <= k < s.len() && #[trigger] s[k].device_id == device_id@)) by {
            if exists|k: int| 0 <= k < s.len() && #[trigger] s[k].device_id == device_id@ {
                let k = choose|k: int| 0 <= k < s.len() && #[trigger] s[k].device_id == device_id@;
                assert(!p(s[k]));
            }
        }
        assert forall|k: int| 0 <= k < s.len() && #[trigger] s[k].device_id != device_id@ implies t.contains(s[k]) by {
            assert(t[k] == s[k]);
        }
        assert(friend_ids_distinct(s) ==> friend_ids_distinct(t)) by {
            if friend_ids_distinct(s) {
                assert forall|a: int, b: int| 0 <= a < b < t.len() implies (#[trigger] t[a]).device_id != (
                #[trigger] t[b]).device_id by {
                    assert(t[a] == s[a]);
                    if b < s.len() {
                        assert(t[b] == s[b]);
                    } else {
                        assert(!p(s[a]));
                    }
                }
            }
        }
    }
}

/// A friend went offline: its entry loses its addresses.
pub open spec fn friend_went_offline(pre: SignalClient, post: SignalClient, device_id: Seq<char>) -> bool {
    let s = pre.friends_s();
    let i = first_where(s, friend_is(device_id));
    &&& post.friends_s() == if i >= 0 {
        s.update(i, FriendView { online: false, transfer_addr: None, iroh_addr: None, ..s[i] })
    } else {
        s
    }
    &&& only_friends_differ(pre, post)
}

/// The registration was confirmed with this friend list, seen address and
/// STUN and iroh relay addresses.
pub open spec fn registered(
    pre: SignalClient,
    post: SignalClient,
    friends: Vec<FriendInfo>,
    observed_addr: Seq<char>,
    stun_addr: Option<String>,
    iroh_relay_url: Option<String>,
    actions: Seq<ClientAction>,
) -> bool {
    &&& post.status_s() == SignalStatus::Connected
    &&& post.friends_s() == friends_view(friends@)
    &&& post.stun_s() == if stun_addr is Some {
        opt_view(stun_addr)
    } else {
        pre.stun_s()
    }
    &&& post.iroh_relay_s() == if iroh_relay_url is Some {
        opt_view(iroh_relay_url)
    } else {
        pre.iroh_relay_s()
    }
    &&& ({
        let port = port_of(pre.addr_s());
        if observed_addr.len() > 0 && port > 0 {
            let full = observed_addr + ":"@ + decimal(port);
            &&& post.addr_s() == full
            &&& actions.len() == 1
            &&& actions[0] matches ClientAction::Send(C2sMsg::UpdateTransferAddr { transfer_addr })
                && transfer_addr@ == full
        } else {
            &&& post.addr_s() == pre.addr_s()
            &&& actions.len() == 0
        }
    })
    &&& post.pending_invite_s() == pre.pending_invite_s()
    &&& post.pending_accept_s() == pre.pending_accept_s()
    &&& post.device_s() == pre.device_s()
    &&& post.name_s() == pre.name_s()
    &&& post.server_s() == pre.server_s()
}

/// The server's answer to an invite outcome went to the pending acceptance,
/// and a new friend it names was added unless already listed.
pub open spec fn invite_result_taken(
    pre: SignalClient,
    post: SignalClient,
    success: bool,
    friend: Option<FriendInfo>,
    error: Option<String>,
    actions: Seq<ClientAction>,
) -> bool {
    &&& !post.pending_accept_s()
    &&& post.pending_invite_s() == pre.pending_invite_s()
    &&& !pre.pending_accept_s() ==> actions.len() == 0
    &&& pre.pending_accept_s() ==> {
        &&& actions.len() == 1
        &&& actions[0] matches ClientAction::AcceptResult(r) && if success {
            match friend {
                Some(f) => r matches Ok(g) && g@ == f@,
                None => r matches Err(e) && e@ == "服务器返回空好友信息"@,
            }
        } else {
            r matches Err(e) && e@ == match error {
                Some(t) => t@,
                None => "未知错误"@,
            }
        }
    }
    &&& ({
        let s = pre.friends_s();
        post.friends_s() == match friend {
            Some(f) => if success && first_where(s, friend_is(f.device_id@)) < 0 {
                s.push(f@)
            } else {
                s
            },
            None => s,
        }
    })
    &&& same_link(pre, post)
    &&& post.addr_s() == pre.addr_s()
    &&& post.status_s() == pre.status_s()
}

/// The server's answer to an invite request went to the pending request,
/// if any.
pub open spec fn invite_code_taken(pre: SignalClient, post: SignalClient, code: String, actions: Seq<ClientAction>) -> bool {
    &&& !post.pending_invite_s()
    &&& pre.pending_invite_s() ==> actions.len() == 1 && (actions[0] matches ClientAction::InviteCode(c)
        && c == code)
    &&& !pre.pending_invite_s() ==> actions.len() == 0
    &&& post.friends_s() == pre.friends_s()
    &&& post.pending_accept_s() == pre.pending_accept_s()
    &&& same_link(pre, post)
    &&& post.addr_s() == pre.addr_s()
    &&& post.status_s() == pre.status_s()
}

pub struct SignalClient {
    device_id: String,
    instance_name: String,
    transfer_addr: String,
    server_addr: String,
    status: SignalStatus,
    friends: Vec<FriendInfo>,
    pending_invite: bool,
    pending_accept: bool,
    stun_addr: Option<String>,
    iroh_relay_url: Option<String>,
}

impl SignalClient {
    pub closed spec fn device_s(&self) -> Seq<char> {
        self.device_id@
    }

    pub closed spec fn name_s(&self) -> Seq<char> {
        self.instance_name@
    }

    pub closed spec fn addr_s(&self) -> Seq<char> {
        self.transfer_addr@
    }

    pub closed spec fn server_s(&self) -> Seq<char> {
        self.server_addr@
    }

    pub closed spec fn status_s(&self) -> SignalStatus {
        self.status
    }

    pub closed spec fn friends_s(&self) -> Seq<FriendView> {
        friends_view(self.friends@)
    }

    pub closed spec fn pending_invite_s(&self) -> bool {
        self.pending_invite
    }

    pub closed spec fn pending_accept_s(&self) -> bool {
        self.pending_accept
    }

    pub closed spec fn stun_s(&self) -> Option<Seq<char>> {
        opt_view(self.stun_addr)
    }

    pub closed spec fn iroh_relay_s(&self) -> Option<Seq<char>> {
        opt_view(self.iroh_relay_url)
    }

    pub fn new(device_id: String, instance_name: String, transfer_addr: String, server_addr: String) -> (c: SignalClient)
        ensures
            c.device_s() == device_id@,
            c.name_s() == instance_name@,
            c.addr_s() == transfer_addr@,
            c.server_s() == server_addr@,
            c.status_s() == SignalStatus::Disconnected,
            c.friends_s() == Seq::<FriendView>::empty(),
            !c.pending_invite_s(),
            !c.pending_accept_s(),
            c.stun_s() is None,
            c.iroh_relay_s() is None,
    {
        let c = SignalClient {
            device_id,
            instance_name,
            transfer_addr,
            server_addr,
            status: SignalStatus::Disconnected,
            friends: Vec::new(),
            pending_invite: false,
            pending_accept: false,
            stun_addr: None,
            iroh_relay_url: None,
        };
        assert(c.friends_s() =~= Seq::<FriendView>::empty());
        c
    }

    /// Starts connecting: the registration to send first.
    pub fn connect(&mut self) -> (m: C2sMsg)
        ensures
            final(self).status_s() == SignalStatus::Connecting,
            m matches C2sMsg::Register { device_id, instance_name, transfer_addr, nat_type } && device_id@
                == old(self).device_s() && instance_name@ == old(self).name_s() && transfer_addr@ == old(
                self,
            ).addr_s() && nat_type@.len() == 0,
            final(self).friends_s() == old(self).friends_s(),
            final(self).addr_s() == old(self).addr_s(),
            final(self).pending_invite_s() == old(self).pending_invite_s(),
            final(self).pending_accept_s() == old(self).pending_accept_s(),
            same_link(*old(self), *final(self)),
    {
        self.status = SignalStatus::Connecting;
        C2sMsg::Register {
            device_id: self.device_id.clone(),
            instance_name: self.instance_name.clone(),
            transfer_addr: self.transfer_addr.clone(),
            nat_type: String::new(),
        }
    }

    /// The link went down.
    pub fn disconnect(&mut self)
        ensures
            final(self).status_s() == SignalStatus::Disconnected,
            final(self).friends_s() == old(self).friends_s(),
            final(self).addr_s() == old(self).addr_s(),
            final(self).pending_invite_s() == old(self).pending_invite_s(),
            final(self).pending_accept_s() == old(self).pending_accept_s(),
            same_link(*old(self), *final(self)),
    {
        self.status = SignalStatus::Disconnected;
    }

    pub fn status(&self) -> (s: SignalStatus)
        ensures
            s == self.status_s(),
    {
        self.status
    }

    pub fn get_friends(&self) -> (r: Vec<FriendInfo>)
        ensures
            friends_view(r@) == self.friends_s(),
    {
        let mut r: Vec<FriendInfo> = Vec::new();
        let mut i: usize = 0;
        while i < self.friends.len()
            invariant
                i <= self.friends@.len(),
                friends_view(r@) == friends_view(self.friends@.take(i as int)),
            decreases self.friends@.len() - i,
        {
            let ghost before = r@;
            r.push(self.friends[i].clone());
            assert(friends_view(r@) =~= friends_view(before).push(self.friends@[i as int]@));
            assert(friends_view(self.friends@.take(i + 1)) =~= friends_view(self.friends@.take(i as int)).push(
                self.friends@[i as int]@,
            ));
            i = i + 1;
        }
        assert(self.friends@.take(self.friends@.len() as int) =~= self.friends@);
        r
    }

    pub fn get_transfer_addr(&self) -> (a: String)
        ensures
            a@ == self.addr_s(),
    {
        self.transfer_addr.clone()
    }

    fn find_friend(&self, id: &str) -> (r: Option<usize>)
        ensures
            match r {
                Some(i) => i < self.friends@.len() && i == first_where(self.friends_s(), friend_is(id@)),
                None => first_where(self.friends_s(), friend_is(id@)) == -1,
            },
    {
        let ghost s = self.friends_s();
        let ghost p = friend_is(id@);
        let mut i: usize = 0;
        while i < self.friends.len()
            invariant
                i <= self.friends@.len(),
                s == self.friends_s(),
                p == friend_is(id@),
                forall|k: int| 0 <= k < i ==> !p(#[trigger] s[k]),
            decreases self.friends@.len() - i,
        {
            assert(s[i as int] == self.friends@[i as int]@);
            if str_equal(self.friends[i].device_id.as_str(), id) {
                proof {
                    lemma_first_where(s, p, i as int);
                }
                return Some(i);
            }
            i = i + 1;
        }
        proof {
            lemma_first_where(s, p, i as int);
        }
        None
    }

    /// The iroh address of friend `device_id`, when it is known.
    pub fn get_peer_iroh_addr(&self, device_id: &str) -> (r: Option<String>)
        ensures
            ({
                let i = first_where(self.friends_s(), friend_is(device_id@));
                opt_view(r) == if i >= 0 {
                    self.friends_s()[i].iroh_addr
                } else {
                    None
                }
            }),
    {
        match self.find_friend(device_id) {
            Some(i) => clone_opt(&self.friends[i].iroh_addr),
            None => None,
        }
    }

    /// Asks for an invite code; the answer goes to this request.
    pub fn generate_invite(&mut self) -> (m: C2sMsg)
        ensures
            m is GenerateInvite,
            final(self).pending_invite_s(),
            final(self).pending_accept_s() == old(self).pending_accept_s(),
            final(self).friends_s() == old(self).friends_s(),
            final(self).status_s() == old(self).status_s(),
            final(self).addr_s() == old(self).addr_s(),
            same_link(*old(self), *final(self)),
    {
        self.pending_invite = true;
        C2sMsg::GenerateInvite
    }

    /// Answers an invite code; the outcome goes to this request.
    pub fn accept_invite(&mut self, code: String) -> (m: C2sMsg)
        ensures
            m matches C2sMsg::AcceptInvite { code: c } && c == code,
            final(self).pending_accept_s(),
            final(self).pending_invite_s() == old(self).pending_invite_s(),
            final(self).friends_s() == old(self).friends_s(),
            final(self).status_s() == old(self).status_s(),
            final(self).addr_s() == old(self).addr_s(),
            same_link(*old(self), *final(self)),
    {
        self.pending_accept = true;
        C2sMsg::AcceptInvite { code }
    }

    /// A chat message for friend `to`, passed on by the server; refused with
    /// the not-connected error when there is no link to the server.
    pub fn send_relay_message(&self, to: &str, content: String, timestamp: u64) -> (r: Result<C2sMsg, String>)
        ensures
            self.status_s() == SignalStatus::Disconnected <==> r is Err,
            r matches Err(e) ==> e@ == not_connected_text(),
            r matches Ok(m) ==> (m matches C2sMsg::RelayMessage { to_device_id, content: c, timestamp: t }
                && to_device_id@ == to@ && c == content && t == timestamp),
    {
        match self.status {
            SignalStatus::Disconnected => Err(not_connected_error()),
            _ => Ok(C2sMsg::RelayMessage { to_device_id: to.to_string(), content, timestamp }),
        }
    }

    pub fn update_instance_name(&mut self, name: String)
        ensures
            final(self).name_s() == name@,
            final(self).addr_s() == old(self).addr_s(),
            final(self).friends_s() == old(self).friends_s(),
            final(self).status_s() == old(self).status_s(),
            final(self).pending_invite_s() == old(self).pending_invite_s(),
            final(self).pending_accept_s() == old(self).pending_accept_s(),
            final(self).device_s() == old(self).device_s(),
            final(self).server_s() == old(self).server_s(),
            final(self).stun_s() == old(self).stun_s(),
            final(self).iroh_relay_s() == old(self).iroh_relay_s(),
    {
        self.instance_name = name;
    }

    /// Records a new transfer address; the server is told when it is not
    /// empty.
    pub fn update_transfer_addr(&mut self, addr: String) -> (m: Option<C2sMsg>)
        ensures
            final(self).addr_s() == addr@,
            addr@.len() == 0 ==> m is None,
            addr@.len() > 0 ==> (m matches Some(C2sMsg::UpdateTransferAddr { transfer_addr }) && transfer_addr@
                == addr@),
            final(self).name_s() == old(self).name_s(),
            final(self).friends_s() == old(self).friends_s(),
            final(self).status_s() == old(self).status_s(),
            final(self).pending_invite_s() == old(self).pending_invite_s(),
            final(self).pending_accept_s() == old(self).pending_accept_s(),
            same_link(*old(self), *final(self)),
    {
        let empty = addr.as_str().is_empty();
        let msg = if empty {
            None
        } else {
            Some(C2sMsg::UpdateTransferAddr { transfer_addr: addr.clone() })
        };
        self.transfer_addr = addr;
        msg
    }

    /// Tells the server a new iroh address.
    pub fn update_iroh_addr(&self, iroh_addr: String) -> (m: C2sMsg)
        ensures
            m matches C2sMsg::UpdateIrohAddr { iroh_addr: a } && a == iroh_addr,
    {
        C2sMsg::UpdateIrohAddr { iroh_addr }
    }

    fn set_friend(&mut self, i: usize, f: FriendInfo)
        requires
            i < old(self).friends@.len(),
        ensures
            final(self).friends_s() == old(self).friends_s().update(i as int, f@),
            same_link(*old(self), *final(self)),
            final(self).addr_s() == old(self).addr_s(),
            final(self).status_s() == old(self).status_s(),
            final(self).pending_invite_s() == old(self).pending_invite_s(),
            final(self).pending_accept_s() == old(self).pending_accept_s(),
    {
        let ghost fv = f@;
        self.friends.set(i, f);
        assert(self.friends_s() =~= old(self).friends_s().update(i as int, fv));
    }

    fn push_friend(&mut self, f: FriendInfo)
        ensures
            final(self).friends_s() == old(self).friends_s().push(f@),
            same_link(*old(self), *final(self)),
            final(self).addr_s() == old(self).addr_s(),
            final(self).status_s() == old(self).status_s(),
            final(self).pending_invite_s() == old(self).pending_invite_s(),
            final(self).pending_accept_s() == old(self).pending_accept_s(),
    {
        let ghost fv = f@;
        self.friends.push(f);
        assert(self.friends_s() =~= old(self).friends_s().push(fv));
    }

    /// A friend came online: its entry is brought up to date, or added.
    pub fn on_friend_online(
        &mut self,
        device_id: String,
        instance_name: String,
        transfer_addr: String,
        iroh_addr: Option<String>,
    )
        ensures
            friend_came_online(*old(self), *final(self), device_id, instance_name, transfer_addr, iroh_addr),
    {
        let found = self.find_friend(device_id.as_str());
        let f = FriendInfo {
            device_id,
            instance_name,
            online: true,
            transfer_addr: Some(transfer_addr),
            iroh_addr,
        };
        match found {
            Some(i) => self.set_friend(i, f),
            None => self.push_friend(f),
        }
    }

    /// A friend went offline: its entry loses its addresses.
    pub fn on_friend_offline(&mut self, device_id: &str)
        ensures
            friend_went_offline(*old(self), *final(self), device_id@),
    {
        if let Some(i) = self.find_friend(device_id) {
            let old_f = &self.friends[i];
            let f = FriendInfo {
                device_id: old_f.device_id.clone(),
                instance_name: old_f.instance_name.clone(),
                online: false,
                transfer_addr: None,
                iroh_addr: None,
            };
            self.set_friend(i, f);
        }
    }

    /// The server confirmed the registration: the friend list is taken as
    /// given, the STUN and iroh relay addresses when given, and, when the
    /// server saw an address and the transfer address ends in a port, the
    /// transfer address becomes the seen address with that port (and the
    /// server is told).  The link is then up.
    pub fn on_registered(
        &mut self,
        friends: Vec<FriendInfo>,
        observed_addr: &str,
        stun_addr: Option<String>,
        iroh_relay_url: Option<String>,
    ) -> (actions: Vec<ClientAction>)
        ensures
            registered(
                *old(self),
                *final(self),
                friends,
                observed_addr@,
                stun_addr,
                iroh_relay_url,
                actions@,
            ),
    {
        self.friends = friends;
        if stun_addr.is_some() {
            self.stun_addr = stun_addr;
        }
        if iroh_relay_url.is_some() {
            self.iroh_relay_url = iroh_relay_url;
        }
        let mut actions: Vec<ClientAction> = Vec::new();
        if !observed_addr.is_empty() {
            let port = port_of_addr(self.transfer_addr.as_str());
            if port > 0 {
                let full = observed_transfer_addr(observed_addr, port);
                self.transfer_addr = full.clone();
                actions.push(ClientAction::Send(C2sMsg::UpdateTransferAddr { transfer_addr: full }));
            }
        }
        self.status = SignalStatus::Connected;
        actions
    }

    /// The server's answer to an invite outcome: it goes to the pending
    /// acceptance (a success without a friend is an error there); a new
    /// friend it names is added unless already listed.
    pub fn on_invite_result(
        &mut self,
        success: bool,
        friend: Option<FriendInfo>,
        error: Option<String>,
    ) -> (actions: Vec<ClientAction>)
        ensures
            invite_result_taken(*old(self), *final(self), success, friend, error, actions@),
    {
        let mut actions: Vec<ClientAction> = Vec::new();
        if self.pending_accept {
            self.pending_accept = false;
            let r = if success {
                match &friend {
                    Some(f) => Ok(f.clone()),
                    None => Err("服务器返回空好友信息".to_string()),
                }
            } else {
                match &error {
                    Some(t) => Err(t.clone()),
                    None => Err("未知错误".to_string()),
                }
            };
            actions.push(ClientAction::AcceptResult(r));
        }
        if success {
            if let Some(f) = friend {
                if self.find_friend(f.device_id.as_str()).is_none() {
                    self.push_friend(f);
                }
            }
        }
        actions
    }

    /// The server's answer to an invite request: it goes to the pending
    /// request, if any.
    pub fn on_invite_code(&mut self, code: String) -> (actions: Vec<ClientAction>)
        ensures
            invite_code_taken(*old(self), *final(self), code, actions@),
    {
        let mut actions: Vec<ClientAction> = Vec::new();
        if self.pending_invite {
            self.pending_invite = false;
            actions.push(ClientAction::InviteCode(code));
        }
        actions
    }

    /// Handles one server message (see the `on_` methods); chat messages,
    /// relayed or kept while offline, are to be stored in the sender's
    /// conversation, each under a fresh random id.
    pub fn handle_incoming(&mut self, msg: S2cMsg) -> (actions: Vec<ClientAction>)
        ensures
            match msg {
                S2cMsg::Registered { friends, observed_addr, relay_addr: _, stun_addr, iroh_relay_url } => registered(
                    *old(self),
                    *final(self),
                    friends,
                    observed_addr@,
                    stun_addr,
                    iroh_relay_url,
                    actions@,
                ),
                S2cMsg::FriendOnline { device_id, instance_name, transfer_addr, iroh_addr } => actions@.len() == 0
                    && friend_came_online(
                    *old(self),
                    *final(self),
                    device_id,
                    instance_name,
                    transfer_addr,
                    iroh_addr,
                ),
                S2cMsg::FriendOffline { device_id } => actions@.len() == 0 && friend_went_offline(
                    *old(self),
                    *final(self),
                    device_id@,
                ),
                S2cMsg::InviteCode { code } => invite_code_taken(*old(self), *final(self), code, actions@),
                S2cMsg::InviteResult { success, friend, error } => invite_result_taken(
                    *old(self),
                    *final(self),
                    success,
                    friend,
                    error,
                    actions@,
                ),
                S2cMsg::RelayedMessage { from_device_id, from_instance_name, content, timestamp } => {
                    &&& *final(self) == *old(self)
                    &&& actions@.len() == 1
                    &&& actions@[0] matches ClientAction::Save { peer, message } && peer == from_device_id
                        && hyphenated_uuid(message.id@) && message.from_instance_id == from_device_id
                        && message.from_instance_name == from_instance_name && message.content == content
                        && message.timestamp == timestamp && message.local_seq == 0 && !message.is_self
                },
                S2cMsg::OfflineMessages { messages } => {
                    &&& *final(self) == *old(self)
                    &&& actions@.len() == messages@.len()
                    &&& forall|i: int|
                        0 <= i < actions@.len() ==> (#[trigger] actions@[i] matches ClientAction::Save {
                            peer,
                            message,
                        } && peer == messages@[i].from_device_id && hyphenated_uuid(message.id@)
                            && message.from_instance_id == messages@[i].from_device_id
                            && message.from_instance_name == messages@[i].from_instance_name
                            && message.content == messages@[i].content && message.timestamp
                            == messages@[i].timestamp && message.local_seq == 0 && !message.is_self)
                },
                S2cMsg::Error { .. } => actions@.len() == 0 && *final(self) == *old(self),
                S2cMsg::RelayReady { .. } => actions@.len() == 0 && *final(self) == *old(self),
            },
    {
        match msg {
            S2cMsg::Registered { friends, observed_addr, relay_addr: _, stun_addr, iroh_relay_url } => {
                self.on_registered(friends, observed_addr.as_str(), stun_addr, iroh_relay_url)
            },
            S2cMsg::FriendOnline { device_id, instance_name, transfer_addr, iroh_addr } => {
                self.on_friend_online(device_id, instance_name, transfer_addr, iroh_addr);
                Vec::new()
            },
            S2cMsg::FriendOffline { device_id } => {
                self.on_friend_offline(device_id.as_str());
                Vec::new()
            },
            S2cMsg::InviteCode { code } => self.on_invite_code(code),
            S2cMsg::InviteResult { success, friend, error } => self.on_invite_result(success, friend, error),
            S2cMsg::RelayedMessage { from_device_id, from_instance_name, content, timestamp } => {
                let message = ChatMessage {
                    id: generate_instance_id(),
                    from_instance_id: from_device_id.clone(),
                    from_instance_name,
                    content,
                    timestamp,
                    local_seq: 0,
                    is_self: false,
                };
                let mut actions: Vec<ClientAction> = Vec::new();
                actions.push(ClientAction::Save { peer: from_device_id, message });
                actions
            },
            S2cMsg::OfflineMessages { messages } => {
                let mut actions: Vec<ClientAction> = Vec::new();
                let mut i: usize = 0;
                while i < messages.len()
                    invariant
                        i <= messages@.len(),
                        actions@.len() == i,
                        forall|k: int|
                            0 <= k < i ==> (#[trigger] actions@[k] matches ClientAction::Save { peer, message }
                                && peer == messages@[k].from_device_id && hyphenated_uuid(message.id@)
                                && message.from_instance_id == messages@[k].from_device_id
                                && message.from_instance_name == messages@[k].from_instance_name
                                && message.content == messages@[k].content && message.timestamp
                                == messages@[k].timestamp && message.local_seq == 0 && !message.is_self),
                    decreases messages@.len() - i,
                {
                    let om = &messages[i];
                    let message = ChatMessage {
                        id: generate_instance_id(),
                        from_instance_id: om.from_device_id.clone(),
                        from_instance_name: om.from_instance_name.clone(),
                        content: om.content.clone(),
                        timestamp: om.timestamp,
                        local_seq: 0,
                        is_self: false,
                    };
                    actions.push(ClientAction::Save { peer: om.from_device_id.clone(), message });
                    i = i + 1;
                }
                actions
            },
            S2cMsg::RelayReady { .. } => Vec::new(),
            S2cMsg::Error { .. } => Vec::new(),
        }
    }
}

} // verus!
