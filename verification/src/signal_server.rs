//! The rendezvous server's decisions.  For each connection the caller reads
//! messages and hands them here with the current time; what comes back is
//! the list of messages to deliver, to this connection or to the connection
//! of another device.
use vstd::prelude::*;
use crate::lists::{first_where, lemma_first_where, lemma_first_where_props};
use crate::share::{opt_view, clone_opt};
use crate::signal::{C2sMsg, FriendInfo, FriendView, OfflineMsg, S2cMsg, invite_code_of, invite_code_from};
use crate::config::hyphenated_uuid;
use crate::text::str_equal;

verus! {

/// Invite codes expire this long after they were made.
pub const INVITE_TTL_MS: u64 = 600000;

/// At most this many messages wait for an offline device.
pub const MAX_OFFLINE_MSGS: usize = 200;

pub struct OnlineEntry {
    device_id: String,
    instance_name: String,
    transfer_addr: String,
    iroh_addr: String,
}

pub struct OnlineView {
    pub device_id: Seq<char>,
    pub instance_name: Seq<char>,
    pub transfer_addr: Seq<char>,
    pub iroh_addr: Seq<char>,
}

impl View for OnlineEntry {
    type V = OnlineView;

    closed spec fn view(&self) -> OnlineView {
        OnlineView {
            device_id: self.device_id@,
            instance_name: self.instance_name@,
            transfer_addr: self.transfer_addr@,
            iroh_addr: self.iroh_addr@,
        }
    }
}

pub struct InviteEntry {
    code: String,
    device_id: String,
    created_ms: u64,
}

pub struct InviteView {
    pub code: Seq<char>,
    pub device_id: Seq<char>,
    pub created_ms: u64,
}

impl View for InviteEntry {
    type V = InviteView;

    closed spec fn view(&self) -> InviteView {
        InviteView { code: self.code@, device_id: self.device_id@, created_ms: self.created_ms }
    }
}

pub struct FriendPair {
    a: String,
    b: String,
}

impl View for FriendPair {
    type V = (Seq<char>, Seq<char>);

    closed spec fn view(&self) -> (Seq<char>, Seq<char>) {
        (self.a@, self.b@)
    }
}

pub struct OfflineQueue {
    device_id: String,
    messages: Vec<OfflineMsg>,
}

pub struct QueueView {
    pub device_id: Seq<char>,
    pub messages: Seq<OfflineMsg>,
}

impl View for OfflineQueue {
    type V = QueueView;

    closed spec fn view(&self) -> QueueView {
        QueueView { device_id: self.device_id@, messages: self.messages@ }
    }
}

/// One registered connection: the device it speaks for and the addresses
/// it announced.
pub struct Session {
    pub device_id: String,
    pub instance_name: String,
    pub transfer_addr: String,
    pub iroh_addr: String,
}

/// Whom a message goes to.
#[derive(Debug)]
pub enum Recipient {
    /// The connection that sent the message being handled.
    Me,
    /// The connection of this device, if it is online.
    Device(String),
}

pub struct Outgoing {
    pub to: Recipient,
    pub msg: S2cMsg,
}

pub open spec fn on_id(id: Seq<char>) -> spec_fn(OnlineView) -> bool {
    |e: OnlineView| e.device_id == id
}

pub open spec fn is_online(online: Seq<OnlineView>, id: Seq<char>) -> bool {
    first_where(online, on_id(id)) >= 0
}

/// The entry of an online device.
pub open spec fn online_entry(online: Seq<OnlineView>, id: Seq<char>) -> OnlineView {
    online[first_where(online, on_id(id))]
}

/// The friends of `id`, in the order the friendships were made.
pub open spec fn friend_ids(pairs: Seq<(Seq<char>, Seq<char>)>, id: Seq<char>) -> Seq<Seq<char>> {
    pairs.filter(|p: (Seq<char>, Seq<char>)| p.0 == id).map_values(|p: (Seq<char>, Seq<char>)| p.1)
}

/// The friends of `id` that are online.
pub open spec fn online_friend_ids(
    pairs: Seq<(Seq<char>, Seq<char>)>,
    online: Seq<OnlineView>,
    id: Seq<char>,
) -> Seq<Seq<char>> {
    friend_ids(pairs, id).filter(|f: Seq<char>| is_online(online, f))
}

/// An optional address: none when empty.
pub open spec fn nonempty(s: Seq<char>) -> Option<Seq<char>> {
    if s.len() == 0 {
        None
    } else {
        Some(s)
    }
}

/// What a registering device is told about friend `f`.
pub open spec fn friend_info_of(online: Seq<OnlineView>, f: Seq<char>) -> FriendView {
    if is_online(online, f) {
        let e = online_entry(online, f);
        FriendView {
            device_id: f,
            instance_name: e.instance_name,
            online: true,
            transfer_addr: Some(e.transfer_addr),
            iroh_addr: nonempty(e.iroh_addr),
        }
    } else {
        FriendView {
            device_id: f,
            instance_name: Seq::empty(),
            online: false,
            transfer_addr: None,
            iroh_addr: None,
        }
    }
}

pub open spec fn queue_of(id: Seq<char>) -> spec_fn(QueueView) -> bool {
    |q: QueueView| q.device_id == id
}

pub open spec fn invite_with(code: Seq<char>) -> spec_fn(InviteView) -> bool {
    |i: InviteView| i.code == code
}

/// No two queues are for the same device.
pub open spec fn queue_ids_distinct(q: Seq<QueueView>) -> bool {
    forall|i: int, j: int| 0 <= i < j < q.len() ==> (#[trigger] q[i]).device_id != (#[trigger] q[j]).device_id
}

/// Leaving entries out keeps the codes distinct: what a filter keeps was in
/// the list.
pub proof fn lemma_filter_codes_distinct(v: Seq<InviteView>, keep: spec_fn(InviteView) -> bool)
    requires
        invite_codes_distinct(v),
    ensures
        invite_codes_distinct(v.filter(keep)),
        forall|x: InviteView| #[trigger] v.filter(keep).contains(x) ==> v.contains(x),
    decreases v.len(),
{
    reveal(Seq::filter);
    if v.len() > 0 {
        let d = v.drop_last();
        assert(invite_codes_distinct(d)) by {
            assert forall|i: int, j: int| 0 <= i < j < d.len() implies (#[trigger] d[i]).code != (#[trigger] d[j]).code by {
                assert(d[i] == v[i] && d[j] == v[j]);
            }
        }
        lemma_filter_codes_distinct(d, keep);
        let f = d.filter(keep);
        assert forall|x: InviteView| #[trigger] f.contains(x) implies x.code != v.last().code by {
            assert(d.contains(x));
            let k = choose|k: int| 0 <= k < d.len() && d[k] == x;
            assert(v[k] == x);
        }
        assert forall|x: InviteView| #[trigger] d.contains(x) implies v.contains(x) by {
            let k = choose|k: int| 0 <= k < d.len() && d[k] == x;
            assert(v[k] == x);
        }
        if keep(v.last()) {
            let g = f.push(v.last());
            assert(v.filter(keep) == g);
            assert forall|i: int, j: int| 0 <= i < j < g.len() implies (#[trigger] g[i]).code != (#[trigger] g[j]).code by {
                assert(g[i] == f[i]);
                if j < f.len() {
                    assert(g[j] == f[j]);
                } else {
                    assert(f.contains(f[i]));
                }
            }
            assert forall|x: InviteView| #[trigger] g.contains(x) implies v.contains(x) by {
                let k = choose|k: int| 0 <= k < g.len() && g[k] == x;
                if k < f.len() {
                    assert(f[k] == x);
                    assert(f.contains(x));
                } else {
                    assert(v[v.len() - 1] == x);
                }
            }
        } else {
            assert(v.filter(keep) == f);
        }
    }
}

/// No two invite entries have the same code.
pub open spec fn invite_codes_distinct(v: Seq<InviteView>) -> bool {
    forall|i: int, j: int| 0 <= i < j < v.len() ==> (#[trigger] v[i]).code != (#[trigger] v[j]).code
}

/// A message announcing `s` online to its friends.
pub open spec fn is_online_notice(m: S2cMsg, s: Session) -> bool {
    m matches S2cMsg::FriendOnline { device_id, instance_name, transfer_addr, iroh_addr } && device_id@
        == s.device_id@ && instance_name@ == s.instance_name@ && transfer_addr@ == s.transfer_addr@
        && opt_view(iroh_addr) == nonempty(s.iroh_addr@)
}

/// `out` delivers, in order, one message to each device of `ids`, each
/// satisfying `ok`.
pub open spec fn delivers(out: Seq<Outgoing>, ids: Seq<Seq<char>>, ok: spec_fn(S2cMsg) -> bool) -> bool {
    &&& out.len() == ids.len()
    &&& forall|i: int|
        0 <= i < out.len() ==> ((#[trigger] out[i]).to matches Recipient::Device(d) && d@ == ids[i]
            && ok(out[i].msg))
}

pub struct ServerState {
    online: Vec<OnlineEntry>,
    friends: Vec<FriendPair>,
    invites: Vec<InviteEntry>,
    offline: Vec<OfflineQueue>,
    relay_addr: Option<String>,
    stun_addr: Option<String>,
    iroh_relay_url: Option<String>,
}

/// A device registers: the messages kept for it while it was offline are
/// taken from the store, and it is told about them (when there are any)
/// and then about its friends, the address it was seen from and the
/// server's relay, STUN and iroh relay addresses.
pub open spec fn registration_answered(
    pre: ServerState,
    post: ServerState,
    s: Session,
    observed_ip: Seq<char>,
    replies: Seq<S2cMsg>,
) -> bool {
    let q = pre.queues_s();
    let i = first_where(q, queue_of(s.device_id@));
    let kept = if i >= 0 {
        q[i].messages
    } else {
        Seq::<OfflineMsg>::empty()
    };
    let n = if kept.len() > 0 {
        1int
    } else {
        0int
    };
    &&& post.queues_s() == if i >= 0 {
        q.remove(i)
    } else {
        q
    }
    &&& replies.len() == n + 1
    &&& kept.len() > 0 ==> (replies[0] matches S2cMsg::OfflineMessages { messages } && messages@ == kept)
    &&& replies[n] matches S2cMsg::Registered {
        friends,
        observed_addr,
        relay_addr,
        stun_addr,
        iroh_relay_url,
    } && friends@.map_values(|f: FriendInfo| f@) == friend_ids(pre.pairs_s(), s.device_id@).map_values(
        |f: Seq<char>| friend_info_of(pre.online_s(), f),
    ) && observed_addr@ == observed_ip && opt_view(relay_addr) == pre.relay_s() && opt_view(stun_addr)
        == pre.stun_s() && opt_view(iroh_relay_url) == pre.iroh_relay_s()
    &&& post.online_s() == pre.online_s()
    &&& post.pairs_s() == pre.pairs_s()
    &&& post.invites_s() == pre.invites_s()
    &&& post.relay_s() == pre.relay_s()
    &&& post.stun_s() == pre.stun_s()
    &&& post.iroh_relay_s() == pre.iroh_relay_s()
}

impl ServerState {
    pub closed spec fn online_s(&self) -> Seq<OnlineView> {
        self.online@.map_values(|e: OnlineEntry| e@)
    }

    pub closed spec fn pairs_s(&self) -> Seq<(Seq<char>, Seq<char>)> {
        self.friends@.map_values(|p: FriendPair| p@)
    }

    pub closed spec fn invites_s(&self) -> Seq<InviteView> {
        self.invites@.map_values(|i: InviteEntry| i@)
    }

    pub closed spec fn queues_s(&self) -> Seq<QueueView> {
        self.offline@.map_values(|q: OfflineQueue| q@)
    }

    pub closed spec fn relay_s(&self) -> Option<Seq<char>> {
        opt_view(self.relay_addr)
    }

    pub closed spec fn stun_s(&self) -> Option<Seq<char>> {
        opt_view(self.stun_addr)
    }

    pub closed spec fn iroh_relay_s(&self) -> Option<Seq<char>> {
        opt_view(self.iroh_relay_url)
    }

    /// Friendship goes both ways, no device waits for more than 200
    /// messages, each device has at most one queue and each invite code at
    /// most one entry.
    pub open spec fn wf(&self) -> bool {
        &&& forall|a: Seq<char>, b: Seq<char>|
            #[trigger] self.pairs_s().contains((a, b)) ==> self.pairs_s().contains((b, a))
        &&& forall|i: int|
            0 <= i < self.queues_s().len() ==> (#[trigger] self.queues_s()[i]).messages.len()
                <= MAX_OFFLINE_MSGS
        &&& queue_ids_distinct(self.queues_s())
        &&& invite_codes_distinct(self.invites_s())
    }

    pub fn new_full(
        relay_addr: Option<String>,
        stun_addr: Option<String>,
        iroh_relay_url: Option<String>,
    ) -> (s: ServerState)
        ensures
            s.wf(),
            s.online_s() == Seq::<OnlineView>::empty(),
            s.pairs_s() == Seq::<(Seq<char>, Seq<char>)>::empty(),
            s.invites_s() == Seq::<InviteView>::empty(),
            s.queues_s() == Seq::<QueueView>::empty(),
            s.relay_s() == opt_view(relay_addr),
            s.stun_s() == opt_view(stun_addr),
            s.iroh_relay_s() == opt_view(iroh_relay_url),
    {
        let s = ServerState {
            online: Vec::new(),
            friends: Vec::new(),
            invites: Vec::new(),
            offline: Vec::new(),
            relay_addr,
            stun_addr,
            iroh_relay_url,
        };
        assert(s.online_s() =~= Seq::<OnlineView>::empty());
        assert(s.pairs_s() =~= Seq::<(Seq<char>, Seq<char>)>::empty());
        assert(s.invites_s() =~= Seq::<InviteView>::empty());
        assert(s.queues_s() =~= Seq::<QueueView>::empty());
        s
    }

    /// A server with no relay, STUN or iroh relay address to hand out.
    pub fn new() -> (s: ServerState)
        ensures
            s.wf(),
            s.online_s() == Seq::<OnlineView>::empty(),
            s.pairs_s() == Seq::<(Seq<char>, Seq<char>)>::empty(),
            s.invites_s() == Seq::<InviteView>::empty(),
            s.queues_s() == Seq::<QueueView>::empty(),
            s.relay_s() is None,
            s.stun_s() is None,
            s.iroh_relay_s() is None,
    {
        ServerState::new_full(None, None, None)
    }

    /// A server that offers relaying through `relay_addr`.
    pub fn new_with_relay(relay_addr: String) -> (s: ServerState)
        ensures
            s.wf(),
            s.online_s() == Seq::<OnlineView>::empty(),
            s.pairs_s() == Seq::<(Seq<char>, Seq<char>)>::empty(),
            s.invites_s() == Seq::<InviteView>::empty(),
            s.queues_s() == Seq::<QueueView>::empty(),
            s.relay_s() == Some(relay_addr@),
            s.stun_s() is None,
            s.iroh_relay_s() is None,
    {
        ServerState::new_full(Some(relay_addr), None, None)
    }

    fn find_online(&self, id: &str) -> (r: Option<usize>)
        ensures
            match r {
                Some(i) => i < self.online@.len() && i == first_where(self.online_s(), on_id(id@)),
                None => first_where(self.online_s(), on_id(id@)) == -1,
            },
    {
        let ghost s = self.online_s();
        let ghost p = on_id(id@);
        let mut i: usize = 0;
        while i < self.online.len()
            invariant
                i <= self.online@.len(),
                s == self.online_s(),
                p == on_id(id@),
                forall|k: int| 0 <= k < i ==> !p(#[trigger] s[k]),
            decreases self.online@.len() - i,
        {
            assert(s[i as int] == self.online@[i as int]@);
            if str_equal(self.online[i].device_id.as_str(), id) {
                proof {
                    lemma_first_where(s, p, i as int);
                }
                return Some(i);
            }
            i = i + 1;
        }
        proof {
            lemma_first_where(s, p, i as int);
        }
        None
    }

    /// Whether `a` counts `b` among its friends.
    pub fn are_friends(&self, a: &str, b: &str) -> (r: bool)
        ensures
            r == self.pairs_s().contains((a@, b@)),
    {
        let ghost s = self.pairs_s();
        let mut i: usize = 0;
        while i < self.friends.len()
            invariant
                i <= self.friends@.len(),
                s == self.pairs_s(),
                forall|k: int| 0 <= k < i ==> s[k] != (a@, b@),
            decreases self.friends@.len() - i,
        {
            assert(s[i as int] == self.friends@[i as int]@);
            if str_equal(self.friends[i].a.as_str(), a) && str_equal(self.friends[i].b.as_str(), b) {
                assert(s[i as int] == (a@, b@));
                return true;
            }
            i = i + 1;
        }
        false
    }

    /// What `id`'s friends are told about it, in the order of its friends.
    fn friend_infos(&self, id: &str) -> (r: Vec<FriendInfo>)
        ensures
            r@.map_values(|f: FriendInfo| f@) == friend_ids(self.pairs_s(), id@).map_values(
                |f: Seq<char>| friend_info_of(self.online_s(), f),
            ),
    {
        let ghost pairs = self.pairs_s();
        let ghost sel = |p: (Seq<char>, Seq<char>)| p.0 == id@;
        let mut r: Vec<FriendInfo> = Vec::new();
        let mut i: usize = 0;
        while i < self.friends.len()
            invariant
                i <= self.friends@.len(),
                pairs == self.pairs_s(),
                sel == (|p: (Seq<char>, Seq<char>)| p.0 == id@),
                r@.map_values(|f: FriendInfo| f@) == friend_ids(pairs.take(i as int), id@).map_values(
                    |f: Seq<char>| friend_info_of(self.online_s(), f),
                ),
            decreases self.friends@.len() - i,
        {
            let ghost pre = pairs.take(i as int);
            let ghost pv = self.friends@[i as int]@;
            proof {
                assert(pairs.take(i + 1) =~= pre.push(pv));
                pre.lemma_filter_push(pv, sel);
            }
            if str_equal(self.friends[i].a.as_str(), id) {
                let f = &self.friends[i].b;
                let info = match self.find_online(f.as_str()) {
                    Some(k) => {
                        let e = &self.online[k];
                        assert(self.online_s()[k as int] == e@);
                        FriendInfo {
                            device_id: f.clone(),
                            instance_name: e.instance_name.clone(),
                            online: true,
                            transfer_addr: Some(e.transfer_addr.clone()),
                            iroh_addr: if e.iroh_addr.as_str().is_empty() {
                                None
                            } else {
                                Some(e.iroh_addr.clone())
                            },
                        }
                    },
                    None => FriendInfo {
                        device_id: f.clone(),
                        instance_name: String::new(),
                        online: false,
                        transfer_addr: None,
                        iroh_addr: None,
                    },
                };
                assert(info@ == friend_info_of(self.online_s(), pv.1));
                let ghost before = r@;
                r.push(info);
                proof {
                    assert(pre.push(pv).filter(sel) == pre.filter(sel).push(pv));
                    assert(friend_ids(pre.push(pv), id@) =~= friend_ids(pre, id@).push(pv.1));
                    assert(r@.map_values(|f: FriendInfo| f@) =~= before.map_values(|f: FriendInfo| f@).push(
                        friend_info_of(self.online_s(), pv.1),
                    ));
                    assert(friend_ids(pre.push(pv), id@).map_values(
                        |f: Seq<char>| friend_info_of(self.online_s(), f),
                    ) =~= friend_ids(pre, id@).map_values(|f: Seq<char>| friend_info_of(self.online_s(), f)).push(
                        friend_info_of(self.online_s(), pv.1),
                    ));
                }
            } else {
                proof {
                    assert(friend_ids(pre.push(pv), id@) =~= friend_ids(pre, id@));
                }
            }
            i = i + 1;
        }
        assert(pairs.take(pairs.len() as int) =~= pairs);
        r
    }

    /// One message for each online friend of `id`, made by `notice`.
    fn notify_friends(&self, id: &str, s: &Session, online_notice: bool) -> (out: Vec<Outgoing>)
        ensures
            delivers(
                out@,
                online_friend_ids(self.pairs_s(), self.online_s(), id@),
                if online_notice {
                    |m: S2cMsg| is_online_notice(m, *s)
                } else {
                    |m: S2cMsg| m matches S2cMsg::FriendOffline { device_id } && device_id@ == s.device_id@
                },
            ),
    {
        let ghost pairs = self.pairs_s();
        let ghost online = self.online_s();
        let ghost sel = |p: (Seq<char>, Seq<char>)| p.0 == id@;
        let ghost on = |f: Seq<char>| is_online(online, f);
        let ghost ok = if online_notice {
            |m: S2cMsg| is_online_notice(m, *s)
        } else {
            |m: S2cMsg| m matches S2cMsg::FriendOffline { device_id } && device_id@ == s.device_id@
        };
        let mut out: Vec<Outgoing> = Vec::new();
        let mut i: usize = 0;
        while i < self.friends.len()
            invariant
                i <= self.friends@.len(),
                pairs == self.pairs_s(),
                online == self.online_s(),
                sel == (|p: (Seq<char>, Seq<char>)| p.0 == id@),
                on == (|f: Seq<char>| is_online(online, f)),
                ok == (if online_notice {
                    |m: S2cMsg| is_online_notice(m, *s)
                } else {
                    |m: S2cMsg| m matches S2cMsg::FriendOffline { device_id } && device_id@ == s.device_id@
                }),
                delivers(out@, friend_ids(pairs.take(i as int), id@).filter(on), ok),
            decreases self.friends@.len() - i,
        {
            let ghost pre = pairs.take(i as int);
            let ghost pv = self.friends@[i as int]@;
            proof {
                assert(pairs.take(i + 1) =~= pre.push(pv));
                pre.lemma_filter_push(pv, sel);
            }
            if str_equal(self.friends[i].a.as_str(), id) {
                let f = &self.friends[i].b;
                proof {
                    assert(friend_ids(pre.push(pv), id@) =~= friend_ids(pre, id@).push(pv.1));
                    friend_ids(pre, id@).lemma_filter_push(pv.1, on);
                }
                if self.find_online(f.as_str()).is_some() {
                    let msg = if online_notice {
                        S2cMsg::FriendOnline {
                            device_id: s.device_id.clone(),
                            instance_name: s.instance_name.clone(),
                            transfer_addr: s.transfer_addr.clone(),
                            iroh_addr: if s.iroh_addr.as_str().is_empty() {
                                None
                            } else {
                                Some(s.iroh_addr.clone())
                            },
                        }
                    } else {
                        S2cMsg::FriendOffline { device_id: s.device_id.clone() }
                    };
                    let ghost before = out@;
                    out.push(Outgoing { to: Recipient::Device(f.clone()), msg });
                    proof {
                        let ids = friend_ids(pre.push(pv), id@).filter(on);
                        assert(ids == friend_ids(pre, id@).filter(on).push(pv.1));
                        assert forall|k: int| 0 <= k < out@.len() implies ((#[trigger] out@[k]).to matches Recipient::Device(
                            d,
                        ) && d@ == ids[k] && ok(out@[k].msg)) by {
                            if k < before.len() {
                                assert(out@[k] == before[k]);
                            }
                        }
                    }
                } else {
                    proof {
                        assert(friend_ids(pre.push(pv), id@).filter(on) == friend_ids(pre, id@).filter(on));
                    }
                }
            } else {
                proof {
                    assert(friend_ids(pre.push(pv), id@) =~= friend_ids(pre, id@));
                }
            }
            i = i + 1;
        }
        assert(pairs.take(pairs.len() as int) =~= pairs);
        out
    }

    fn take_offline(&mut self, id: &str) -> (msgs: Vec<OfflineMsg>)
        requires
            old(self).wf(),
        ensures
            final(self).wf(),
            ({
                let q = old(self).queues_s();
                let i = first_where(q, queue_of(id@));
                &&& msgs@ == if i >= 0 {
                    q[i].messages
                } else {
                    Seq::<OfflineMsg>::empty()
                }
                &&& final(self).queues_s() == if i >= 0 {
                    q.remove(i)
                } else {
                    q
                }
            }),
            final(self).online_s() == old(self).online_s(),
            final(self).pairs_s() == old(self).pairs_s(),
            final(self).invites_s() == old(self).invites_s(),
            final(self).relay_s() == old(self).relay_s(),
            final(self).stun_s() == old(self).stun_s(),
            final(self).iroh_relay_s() == old(self).iroh_relay_s(),
    {
        let ghost q = self.queues_s();
        let ghost p = queue_of(id@);
        let mut i: usize = 0;
        while i < self.offline.len()
            invariant
                i <= self.offline@.len(),
                q == self.queues_s(),
                q == old(self).queues_s(),
                *self == *old(self),
                old(self).wf(),
                p == queue_of(id@),
                forall|k: int| 0 <= k < i ==> !p(#[trigger] q[k]),
            decreases self.offline@.len() - i,
        {
            assert(q[i as int] == self.offline@[i as int]@);
            if str_equal(self.offline[i].device_id.as_str(), id) {
                proof {
                    lemma_first_where(q, p, i as int);
                }
                let entry = self.offline.remove(i);
                assert(self.queues_s() =~= q.remove(i as int));
                proof {
                    assert forall|k: int| 0 <= k < self.queues_s().len() implies (#[trigger] self.queues_s()[k]).messages.len()
                        <= MAX_OFFLINE_MSGS by {
                        if k < i {
                            assert(self.queues_s()[k] == q[k]);
                        } else {
                            assert(self.queues_s()[k] == q[k + 1]);
                        }
                    }
                    assert(self.pairs_s() == old(self).pairs_s());
                }
                return entry.messages;
            }
            i = i + 1;
        }
        proof {
            lemma_first_where(q, p, i as int);
        }
        Vec::new()
    }

    /// A device registers: the messages kept for it while it was offline are
    /// taken from the store, and it is told about them (when there are any)
    /// and then about its friends, the address it was seen from and the
    /// server's relay, STUN and iroh relay addresses.  It is not online yet:
    /// see [`ServerState::go_online`].
    pub fn register(&mut self, s: &Session, observed_ip: &str) -> (replies: Vec<S2cMsg>)
        requires
            old(self).wf(),
        ensures
            final(self).wf(),
            registration_answered(*old(self), *final(self), *s, observed_ip@, replies@),
    {
        let offline = self.take_offline(s.device_id.as_str());
        let friends = self.friend_infos(s.device_id.as_str());
        let mut replies: Vec<S2cMsg> = Vec::new();
        if offline.len() > 0 {
            replies.push(S2cMsg::OfflineMessages { messages: offline });
        }
        replies.push(
            S2cMsg::Registered {
                friends,
                observed_addr: observed_ip.to_string(),
                relay_addr: clone_opt(&self.relay_addr),
                stun_addr: clone_opt(&self.stun_addr),
                iroh_relay_url: clone_opt(&self.iroh_relay_url),
            },
        );
        replies
    }

    /// The registered device goes online (replacing an older connection of
    /// the same device), and its online friends are told.
    pub fn go_online(&mut self, s: &Session) -> (out: Vec<Outgoing>)
        requires
            old(self).wf(),
        ensures
            final(self).wf(),
            ({
                let o = old(self).online_s();
                let e = OnlineView {
                    device_id: s.device_id@,
                    instance_name: s.instance_name@,
                    transfer_addr: s.transfer_addr@,
                    iroh_addr: s.iroh_addr@,
                };
                let i = first_where(o, on_id(s.device_id@));
                final(self).online_s() == if i >= 0 {
                    o.update(i, e)
                } else {
                    o.push(e)
                }
            }),
            delivers(
                out@,
                online_friend_ids(final(self).pairs_s(), final(self).online_s(), s.device_id@),
                |m: S2cMsg| is_online_notice(m, *s),
            ),
            final(self).pairs_s() == old(self).pairs_s(),
            final(self).invites_s() == old(self).invites_s(),
            final(self).queues_s() == old(self).queues_s(),
            final(self).relay_s() == old(self).relay_s(),
            final(self).stun_s() == old(self).stun_s(),
            final(self).iroh_relay_s() == old(self).iroh_relay_s(),
    {
        let e = OnlineEntry {
            device_id: s.device_id.clone(),
            instance_name: s.instance_name.clone(),
            transfer_addr: s.transfer_addr.clone(),
            iroh_addr: s.iroh_addr.clone(),
        };
        let ghost ev = e@;
        let ghost o = self.online_s();
        match self.find_online(s.device_id.as_str()) {
            Some(i) => {
                self.online.set(i, e);
                assert(self.online_s() =~= o.update(i as int, ev));
            },
            None => {
                self.online.push(e);
                assert(self.online_s() =~= o.push(ev));
            },
        }
        proof {
            assert(self.pairs_s() =~= old(self).pairs_s());
            assert(self.queues_s() =~= old(self).queues_s());
        }
        self.notify_friends(s.device_id.as_str(), s, true)
    }

    /// The connection of `s` closed: the device goes offline and its online
    /// friends are told.
    pub fn disconnect(&mut self, s: &Session) -> (out: Vec<Outgoing>)
        requires
            old(self).wf(),
        ensures
            final(self).wf(),
            final(self).online_s() == old(self).online_s().filter(|e: OnlineView| e.device_id != s.device_id@),
            delivers(
                out@,
                online_friend_ids(final(self).pairs_s(), final(self).online_s(), s.device_id@),
                |m: S2cMsg| m matches S2cMsg::FriendOffline { device_id } && device_id@ == s.device_id@,
            ),
            final(self).pairs_s() == old(self).pairs_s(),
            final(self).invites_s() == old(self).invites_s(),
            final(self).queues_s() == old(self).queues_s(),
            final(self).relay_s() == old(self).relay_s(),
            final(self).stun_s() == old(self).stun_s(),
            final(self).iroh_relay_s() == old(self).iroh_relay_s(),
    {
        let ghost src = self.online_s();
        let ghost keep = |e: OnlineView| e.device_id != s.device_id@;
        let mut kept: Vec<OnlineEntry> = Vec::new();
        let mut i: usize = 0;
        while i < self.online.len()
            invariant
                i <= self.online@.len(),
                src == self.online_s(),
                keep == (|e: OnlineView| e.device_id != s.device_id@),
                kept@.map_values(|e: OnlineEntry| e@) == src.take(i as int).filter(keep),
            decreases self.online@.len() - i,
        {
            let ghost ev = self.online@[i as int]@;
            proof {
                assert(src.take(i + 1) =~= src.take(i as int).push(ev));
                src.take(i as int).lemma_filter_push(ev, keep);
            }
            if !str_equal(self.online[i].device_id.as_str(), s.device_id.as_str()) {
                let e = &self.online[i];
                let c = OnlineEntry {
                    device_id: e.device_id.clone(),
                    instance_name: e.instance_name.clone(),
                    transfer_addr: e.transfer_addr.clone(),
                    iroh_addr: e.iroh_addr.clone(),
                };
                let ghost before = kept@;
                kept.push(c);
                assert(kept@.map_values(|e: OnlineEntry| e@) =~= before.map_values(|e: OnlineEntry| e@).push(ev));
            }
            i = i + 1;
        }
        assert(src.take(src.len() as int) =~= src);
        self.online = kept;
        proof {
            assert(self.pairs_s() =~= old(self).pairs_s());
            assert(self.queues_s() =~= old(self).queues_s());
        }
        self.notify_friends(s.device_id.as_str(), s, false)
    }

    fn add_pair(&mut self, a: &str, b: &str)
        ensures
            final(self).pairs_s().to_set() == old(self).pairs_s().to_set().insert((a@, b@)),
            final(self).online_s() == old(self).online_s(),
            final(self).invites_s() == old(self).invites_s(),
            final(self).queues_s() == old(self).queues_s(),
            final(self).relay_s() == old(self).relay_s(),
            final(self).stun_s() == old(self).stun_s(),
            final(self).iroh_relay_s() == old(self).iroh_relay_s(),
    {
        if !self.are_friends(a, b) {
            let ghost before = self.pairs_s();
            self.friends.push(FriendPair { a: a.to_string(), b: b.to_string() });
            proof {
                assert(self.pairs_s() =~= before.push((a@, b@)));
                assert(self.pairs_s().to_set() =~= before.to_set().insert((a@, b@))) by {
                    assert forall|x: (Seq<char>, Seq<char>)| before.push((a@, b@)).contains(x) <==> before.contains(x)
                        || x == (a@, b@) by {
                        if before.push((a@, b@)).contains(x) {
                            let k = choose|k: int| 0 <= k < before.len() + 1 && before.push((a@, b@))[k] == x;
                            if k < before.len() {
                                assert(before[k] == x);
                            }
                        }
                        if before.contains(x) {
                            let k = choose|k: int| 0 <= k < before.len() && before[k] == x;
                            assert(before.push((a@, b@))[k] == x);
                        }
                        if x == (a@, b@) {
                            assert(before.push((a@, b@))[before.len() as int] == x);
                        }
                    }
                }
            }
        } else {
            assert(self.pairs_s().to_set() =~= old(self).pairs_s().to_set().insert((a@, b@)));
        }
    }

    /// Makes `a` and `b` friends of each other.
    pub fn befriend(&mut self, a: &str, b: &str)
        requires
            old(self).wf(),
        ensures
            final(self).wf(),
            final(self).pairs_s().to_set() == old(self).pairs_s().to_set().insert((a@, b@)).insert((b@, a@)),
            final(self).online_s() == old(self).online_s(),
            final(self).invites_s() == old(self).invites_s(),
            final(self).queues_s() == old(self).queues_s(),
            final(self).relay_s() == old(self).relay_s(),
            final(self).stun_s() == old(self).stun_s(),
            final(self).iroh_relay_s() == old(self).iroh_relay_s(),
    {
        self.add_pair(a, b);
        self.add_pair(b, a);
        proof {
            let s = old(self).pairs_s().to_set().insert((a@, b@)).insert((b@, a@));
            assert forall|x: Seq<char>, y: Seq<char>| #[trigger] self.pairs_s().contains((x, y)) implies self.pairs_s().contains(
                (y, x),
            ) by {
                assert(self.pairs_s().to_set().contains((x, y)));
                if (x, y) != (a@, b@) && (x, y) != (b@, a@) {
                    assert(old(self).pairs_s().to_set().contains((x, y)));
                    assert(old(self).pairs_s().contains((x, y)));
                    assert(old(self).pairs_s().contains((y, x)));
                    assert(s.contains((y, x)));
                } else {
                    assert(s.contains((y, x)));
                }
                assert(self.pairs_s().to_set().contains((y, x)));
            }
        }
    }

    /// Drops the invite codes older than ten minutes at `now_ms`; gives back
    /// how many went.
    pub fn cleanup_expired_invites(&mut self, now_ms: u64) -> (removed: usize)
        requires
            old(self).wf(),
        ensures
            final(self).wf(),
            final(self).invites_s() == old(self).invites_s().filter(
                |i: InviteView| !invite_expired(i, now_ms),
            ),
            removed == old(self).invites_s().len() - final(self).invites_s().len(),
            final(self).online_s() == old(self).online_s(),
            final(self).pairs_s() == old(self).pairs_s(),
            final(self).queues_s() == old(self).queues_s(),
            final(self).relay_s() == old(self).relay_s(),
            final(self).stun_s() == old(self).stun_s(),
            final(self).iroh_relay_s() == old(self).iroh_relay_s(),
    {
        let ghost src = self.invites_s();
        let ghost keep = |i: InviteView| !invite_expired(i, now_ms);
        let mut kept: Vec<InviteEntry> = Vec::new();
        let mut i: usize = 0;
        while i < self.invites.len()
            invariant
                i <= self.invites@.len(),
                src == self.invites_s(),
                keep == (|i: InviteView| !invite_expired(i, now_ms)),
                kept@.map_values(|e: InviteEntry| e@) == src.take(i as int).filter(keep),
                kept@.len() <= i,
            decreases self.invites@.len() - i,
        {
            let ghost ev = self.invites@[i as int]@;
            proof {
                assert(src.take(i + 1) =~= src.take(i as int).push(ev));
                src.take(i as int).lemma_filter_push(ev, keep);
            }
            let e = &self.invites[i];
            if !expired_at(e.created_ms, now_ms) {
                let c = InviteEntry { code: e.code.clone(), device_id: e.device_id.clone(), created_ms: e.created_ms };
                let ghost before = kept@;
                kept.push(c);
                assert(kept@.map_values(|e: InviteEntry| e@) =~= before.map_values(|e: InviteEntry| e@).push(ev));
            }
            i = i + 1;
        }
        assert(src.take(src.len() as int) =~= src);
        proof {
            src.lemma_filter_len(keep);
            lemma_filter_codes_distinct(src, keep);
        }
        let removed = self.invites.len() - kept.len();
        self.invites = kept;
        proof {
            assert(self.pairs_s() =~= old(self).pairs_s());
            assert(self.queues_s() =~= old(self).queues_s());
        }
        removed
    }
}

/// What handling a chat message from `s` to `to` does to the server and sends.
pub open spec fn relayed(pre: ServerState, post: ServerState, s: Session, to: Seq<char>, content: String, timestamp: u64, out: Seq<Outgoing>) -> bool {
    &&& post.online_s() == pre.online_s()
    &&& post.pairs_s() == pre.pairs_s()
    &&& post.invites_s() == pre.invites_s()
    &&& post.relay_s() == pre.relay_s()
    &&& post.stun_s() == pre.stun_s()
    &&& post.iroh_relay_s() == pre.iroh_relay_s()
    &&& (!pre.pairs_s().contains((s.device_id@, to)) ==> {
        &&& out.len() == 1
        &&& out[0].to is Me
        &&& out[0].msg matches S2cMsg::Error { message } && message@ == "非好友"@
        &&& post.queues_s() == pre.queues_s()
    })
    &&& (pre.pairs_s().contains((s.device_id@, to)) && is_online(pre.online_s(), to) ==> {
        &&& out.len() == 1
        &&& out[0].to matches Recipient::Device(d) && d@ == to
        &&& out[0].msg matches S2cMsg::RelayedMessage {
            from_device_id,
            from_instance_name,
            content: c,
            timestamp: t,
        } && from_device_id@ == s.device_id@ && from_instance_name@ == s.instance_name@ && c@
            == content@ && t == timestamp
        &&& post.queues_s() == pre.queues_s()
    })
    &&& (pre.pairs_s().contains((s.device_id@, to)) && !is_online(pre.online_s(), to) ==> {
        let q = pre.queues_s();
        let i = first_where(q, queue_of(to));
        let m = OfflineMsg {
            from_device_id: s.device_id,
            from_instance_name: s.instance_name,
            content,
            timestamp,
        };
        &&& out.len() == 0
        &&& post.queues_s() == if i < 0 {
            q.push(QueueView { device_id: to, messages: seq![m] })
        } else if q[i].messages.len() < MAX_OFFLINE_MSGS {
            q.update(i, QueueView { messages: q[i].messages.push(m), ..q[i] })
        } else {
            q
        }
    })
}

/// What is sent when `s` asks for a relay session with `to` under the key `fresh`.
pub open spec fn relay_offered(pre: ServerState, s: Session, to: Seq<char>, fresh: Seq<char>, out: Seq<Outgoing>) -> bool {
    &&& (pre.relay_s() is None ==> out.len() == 1 && out[0].to is Me && (out[0].msg matches S2cMsg::Error {
        message,
    } && message@ == "服务器未启用relay"@))
    &&& (pre.relay_s() is Some && !pre.pairs_s().contains((s.device_id@, to)) ==> out.len() == 1
        && out[0].to is Me && (out[0].msg matches S2cMsg::Error { message } && message@
        == "非好友"@))
    &&& (pre.relay_s() is Some && pre.pairs_s().contains((s.device_id@, to)) ==> {
        &&& out.len() == if is_online(pre.online_s(), to) {
            2int
        } else {
            1int
        }
        &&& out[0].to is Me
        &&& forall|k: int|
            0 <= k < out.len() ==> ((#[trigger] out[k]).msg matches S2cMsg::RelayReady {
                session_key,
                relay_addr,
            } && session_key@ == fresh && Some(relay_addr@) == pre.relay_s())
        &&& out.len() == 2 ==> (out[1].to matches Recipient::Device(d) && d@ == to)
    })
}

/// What making an invite code for `s` from `fresh` at `now_ms` does and sends.
pub open spec fn invite_made(pre: ServerState, post: ServerState, s: Session, now_ms: u64, fresh: Seq<char>, out: Seq<Outgoing>) -> bool {
    &&& (({
        let v = pre.invites_s();
        let code = invite_code_of(fresh);
        let e = InviteView { code, device_id: s.device_id@, created_ms: now_ms };
        let i = first_where(v, invite_with(code));
        &&& post.invites_s() == if i >= 0 {
            v.update(i, e)
        } else {
            v.push(e)
        }
        &&& out.len() == 1
        &&& out[0].to is Me
        &&& out[0].msg matches S2cMsg::InviteCode { code: c } && c@ == code
    }))
    &&& post.online_s() == pre.online_s()
    &&& post.pairs_s() == pre.pairs_s()
    &&& post.queues_s() == pre.queues_s()
    &&& post.relay_s() == pre.relay_s()
    &&& post.stun_s() == pre.stun_s()
    &&& post.iroh_relay_s() == pre.iroh_relay_s()
}

/// What answering the invite code `code` by `s` at `now_ms` does and sends.
pub open spec fn invite_answered(pre: ServerState, post: ServerState, s: Session, code: Seq<char>, now_ms: u64, out: Seq<Outgoing>) -> bool {
    &&& (({
        let v = pre.invites_s();
        let i = first_where(v, invite_with(code));
        &&& post.invites_s() == if i >= 0 {
            v.remove(i)
        } else {
            v
        }
        &&& out.len() >= 1
        &&& out[0].to is Me
        &&& i < 0 ==> {
            &&& out.len() == 1
            &&& out[0].msg matches S2cMsg::InviteResult { success, friend, error }
                && !success && friend is None && (error matches Some(e) && e@ == "邀请码无效或已过期"@)
            &&& post.pairs_s() == pre.pairs_s()
        }
        &&& i >= 0 && invite_expired(v[i], now_ms) ==> {
            &&& out.len() == 1
            &&& out[0].msg matches S2cMsg::InviteResult { success, friend, error }
                && !success && friend is None && (error matches Some(e) && e@ == "邀请码已过期"@)
            &&& post.pairs_s() == pre.pairs_s()
        }
        &&& i >= 0 && !invite_expired(v[i], now_ms) ==> {
            let inviter = v[i].device_id;
            &&& post.pairs_s().to_set() == pre.pairs_s().to_set().insert(
                (s.device_id@, inviter),
            ).insert((inviter, s.device_id@))
            &&& out[0].msg matches S2cMsg::InviteResult { success, friend, error }
                && success && error is None && (if is_online(pre.online_s(), inviter) {
                friend matches Some(f) && f@ == friend_info_of(pre.online_s(), inviter)
            } else {
                friend is None
            })
            &&& out.len() == if is_online(pre.online_s(), inviter) {
                3int
            } else {
                1int
            }
            &&& out.len() == 3 ==> {
                &&& out[1].to matches Recipient::Device(d) && d@ == inviter
                &&& is_online_notice(out[1].msg, s)
                &&& out[2].to matches Recipient::Device(d) && d@ == inviter
                &&& out[2].msg matches S2cMsg::InviteResult { success, friend, error }
                    && success && error is None && (friend matches Some(f) && f.device_id@
                    == s.device_id@ && f.instance_name@ == s.instance_name@ && f.online
                    && opt_view(f.transfer_addr) == Some(s.transfer_addr@) && opt_view(f.iroh_addr)
                    == nonempty(s.iroh_addr@))
            }
        }
    }))
    &&& post.online_s() == pre.online_s()
    &&& post.queues_s() == pre.queues_s()
    &&& post.relay_s() == pre.relay_s()
    &&& post.stun_s() == pre.stun_s()
    &&& post.iroh_relay_s() == pre.iroh_relay_s()
}

/// What announcing the transfer address `addr` does to the server, to the session (`s0` before, `s1` after) and sends.
pub open spec fn transfer_addr_updated(pre: ServerState, post: ServerState, s0: Session, s1: Session, addr: Seq<char>, out: Seq<Outgoing>) -> bool {
    &&& (addr == s0.transfer_addr@ ==> s1 == s0 && out.len() == 0 && post.online_s()
        == pre.online_s())
    &&& (addr != s0.transfer_addr@ ==> {
        let o = pre.online_s();
        let i = first_where(o, on_id(s0.device_id@));
        &&& s1.transfer_addr@ == addr
        &&& s1.device_id == s0.device_id
        &&& s1.instance_name == s0.instance_name
        &&& s1.iroh_addr == s0.iroh_addr
        &&& post.online_s() == if i >= 0 {
            o.update(i, OnlineView { transfer_addr: addr, iroh_addr: s0.iroh_addr@, ..o[i] })
        } else {
            o
        }
        &&& delivers(
            out,
            online_friend_ids(pre.pairs_s(), post.online_s(), s0.device_id@),
            |m: S2cMsg| is_online_notice(m, s1),
        )
    })
    &&& post.pairs_s() == pre.pairs_s()
    &&& post.invites_s() == pre.invites_s()
    &&& post.queues_s() == pre.queues_s()
    &&& post.relay_s() == pre.relay_s()
    &&& post.stun_s() == pre.stun_s()
    &&& post.iroh_relay_s() == pre.iroh_relay_s()
}

/// What announcing the iroh address `addr` does to the server, to the session (`s0` before, `s1` after) and sends.
pub open spec fn iroh_addr_updated(pre: ServerState, post: ServerState, s0: Session, s1: Session, addr: Seq<char>, out: Seq<Outgoing>) -> bool {
    &&& (addr == s0.iroh_addr@ ==> s1 == s0 && out.len() == 0 && post.online_s()
        == pre.online_s())
    &&& (addr != s0.iroh_addr@ ==> {
        let o = pre.online_s();
        let i = first_where(o, on_id(s0.device_id@));
        &&& s1.iroh_addr@ == addr
        &&& s1.device_id == s0.device_id
        &&& s1.instance_name == s0.instance_name
        &&& s1.transfer_addr == s0.transfer_addr
        &&& post.online_s() == if i >= 0 {
            o.update(i, OnlineView { transfer_addr: s0.transfer_addr@, iroh_addr: addr, ..o[i] })
        } else {
            o
        }
        &&& delivers(
            out,
            online_friend_ids(pre.pairs_s(), post.online_s(), s0.device_id@),
            |m: S2cMsg| is_online_notice(m, s1),
        )
    })
    &&& post.pairs_s() == pre.pairs_s()
    &&& post.invites_s() == pre.invites_s()
    &&& post.queues_s() == pre.queues_s()
    &&& post.relay_s() == pre.relay_s()
    &&& post.stun_s() == pre.stun_s()
    &&& post.iroh_relay_s() == pre.iroh_relay_s()
}

impl ServerState {
    /// A chat message from `s` to `to`: refused unless `to` is a friend;
    /// passed on when `to` is online; otherwise kept for it, unless 200
    /// messages already wait (then it is dropped).
    pub fn relay_message(&mut self, s: &Session, to: &str, content: String, timestamp: u64) -> (out: Vec<Outgoing>)
        requires
            old(self).wf(),
        ensures
            final(self).wf(),
            relayed(*old(self), *final(self), *s, to@, content, timestamp, out@),
    {
        let ghost content0 = content;
        let mut out: Vec<Outgoing> = Vec::new();
        if !self.are_friends(s.device_id.as_str(), to) {
            out.push(Outgoing { to: Recipient::Me, msg: S2cMsg::Error { message: "非好友".to_string() } });
            return out;
        }
        if self.find_online(to).is_some() {
            out.push(
                Outgoing {
                    to: Recipient::Device(to.to_string()),
                    msg: S2cMsg::RelayedMessage {
                        from_device_id: s.device_id.clone(),
                        from_instance_name: s.instance_name.clone(),
                        content,
                        timestamp,
                    },
                },
            );
            return out;
        }
        let m = OfflineMsg {
            from_device_id: s.device_id.clone(),
            from_instance_name: s.instance_name.clone(),
            content,
            timestamp,
        };
        let ghost q = self.queues_s();
        let ghost p = queue_of(to@);
        let ghost mv = m;
        let mut i: usize = 0;
        while i < self.offline.len()
            invariant
                i <= self.offline@.len(),
                q == self.queues_s(),
                q == old(self).queues_s(),
                *self == *old(self),
                old(self).wf(),
                old(self).pairs_s().contains((s.device_id@, to@)),
                !is_online(old(self).online_s(), to@),
                out@.len() == 0,
                mv == m,
                content0 == content,
                m == (OfflineMsg {
                    from_device_id: s.device_id,
                    from_instance_name: s.instance_name,
                    content: content0,
                    timestamp,
                }),
                p == queue_of(to@),
                forall|k: int| 0 <= k < i ==> !p(#[trigger] q[k]),
            decreases self.offline@.len() - i,
        {
            assert(q[i as int] == self.offline@[i as int]@);
            if str_equal(self.offline[i].device_id.as_str(), to) {
                proof {
                    lemma_first_where(q, p, i as int);
                }
                if self.offline[i].messages.len() < MAX_OFFLINE_MSGS {
                    let mut entry = self.offline.remove(i);
                    assert(entry@ == q[i as int]);
                    entry.messages.push(m);
                    self.offline.insert(i, entry);
                    proof {
                        assert(self.queues_s() =~= q.update(
                            i as int,
                            QueueView { messages: q[i as int].messages.push(mv), ..q[i as int] },
                        ));
                        assert forall|k: int| 0 <= k < self.queues_s().len() implies (#[trigger] self.queues_s()[k]).messages.len()
                            <= MAX_OFFLINE_MSGS by {
                            if k != i {
                                assert(self.queues_s()[k] == q[k]);
                            }
                        }
                        assert(self.pairs_s() =~= old(self).pairs_s());
                        assert(first_where(q, queue_of(to@)) == i);
                        assert(q[i as int].messages.len() < MAX_OFFLINE_MSGS);
                    }
                } else {
                    assert(first_where(q, queue_of(to@)) == i);
                    assert(!(q[i as int].messages.len() < MAX_OFFLINE_MSGS));
                    assert(self.queues_s() == q);
                }
                return out;
            }
            i = i + 1;
        }
        proof {
            lemma_first_where(q, p, i as int);
        }
        let mut msgs: Vec<OfflineMsg> = Vec::new();
        msgs.push(m);
        self.offline.push(OfflineQueue { device_id: to.to_string(), messages: msgs });
        proof {
            assert(self.queues_s() =~= q.push(QueueView { device_id: to@, messages: seq![mv] }));
            assert forall|k: int| 0 <= k < self.queues_s().len() implies (#[trigger] self.queues_s()[k]).messages.len()
                <= MAX_OFFLINE_MSGS by {
                if k < q.len() {
                    assert(self.queues_s()[k] == q[k]);
                }
            }
            assert(self.pairs_s() =~= old(self).pairs_s());
        }
        out
    }

    /// A relay session between `s` and its friend `to`: refused when the
    /// server has no relay or `to` is not a friend; otherwise both ends are
    /// given the session key `fresh` and the relay's address (`to` only when
    /// it is online).
    pub fn request_relay(&self, s: &Session, to: &str, fresh: &str) -> (out: Vec<Outgoing>)
        ensures
            relay_offered(*self, *s, to@, fresh@, out@),
    {
        let mut out: Vec<Outgoing> = Vec::new();
        let relay = match &self.relay_addr {
            Some(a) => a.clone(),
            None => {
                out.push(
                    Outgoing {
                        to: Recipient::Me,
                        msg: S2cMsg::Error { message: "服务器未启用relay".to_string() },
                    },
                );
                return out;
            },
        };
        if !self.are_friends(s.device_id.as_str(), to) {
            out.push(Outgoing { to: Recipient::Me, msg: S2cMsg::Error { message: "非好友".to_string() } });
            return out;
        }
        out.push(
            Outgoing {
                to: Recipient::Me,
                msg: S2cMsg::RelayReady { session_key: fresh.to_string(), relay_addr: relay.clone() },
            },
        );
        if self.find_online(to).is_some() {
            out.push(
                Outgoing {
                    to: Recipient::Device(to.to_string()),
                    msg: S2cMsg::RelayReady { session_key: fresh.to_string(), relay_addr: relay },
                },
            );
        }
        out
    }

    /// A new invite code for `s`, made from the UUID text `fresh`, valid from
    /// `now_ms` (replacing an older invite with the same code).
    pub fn generate_invite(&mut self, s: &Session, now_ms: u64, fresh: &str) -> (out: Vec<Outgoing>)
        requires
            old(self).wf(),
            hyphenated_uuid(fresh@),
        ensures
            final(self).wf(),
            invite_made(*old(self), *final(self), *s, now_ms, fresh@, out@),
    {
        let code = invite_code_from(fresh);
        let e = InviteEntry { code: code.clone(), device_id: s.device_id.clone(), created_ms: now_ms };
        let ghost ev = e@;
        let ghost v = self.invites_s();
        proof {
            lemma_first_where_props(v, invite_with(ev.code));
        }
        match self.find_invite(code.as_str()) {
            Some(i) => {
                self.invites.set(i, e);
                assert(self.invites_s() =~= v.update(i as int, ev));
                assert(invite_codes_distinct(self.invites_s())) by {
                    let t = self.invites_s();
                    assert forall|a: int, b: int| 0 <= a < b < t.len() implies (#[trigger] t[a]).code != (
                    #[trigger] t[b]).code by {
                        if a != i && b != i {
                            assert(t[a] == v[a] && t[b] == v[b]);
                        } else if a == i {
                            assert(t[b] == v[b]);
                            assert(v[a].code == ev.code);
                        } else {
                            assert(t[a] == v[a]);
                            assert(v[b].code == ev.code);
                        }
                    }
                }
            },
            None => {
                self.invites.push(e);
                assert(self.invites_s() =~= v.push(ev));
                assert(invite_codes_distinct(self.invites_s())) by {
                    let t = self.invites_s();
                    assert forall|a: int, b: int| 0 <= a < b < t.len() implies (#[trigger] t[a]).code != (
                    #[trigger] t[b]).code by {
                        assert(t[a] == v[a]);
                        if b < v.len() {
                            assert(t[b] == v[b]);
                        } else {
                            assert(!invite_with(ev.code)(v[a]));
                        }
                    }
                }
            },
        }
        proof {
            assert(self.pairs_s() =~= old(self).pairs_s());
            assert(self.queues_s() =~= old(self).queues_s());
        }
        let mut out: Vec<Outgoing> = Vec::new();
        out.push(Outgoing { to: Recipient::Me, msg: S2cMsg::InviteCode { code } });
        out
    }

    fn find_invite(&self, code: &str) -> (r: Option<usize>)
        ensures
            match r {
                Some(i) => i < self.invites@.len() && i == first_where(self.invites_s(), invite_with(code@)),
                None => first_where(self.invites_s(), invite_with(code@)) == -1,
            },
    {
        let ghost s = self.invites_s();
        let ghost p = invite_with(code@);
        let mut i: usize = 0;
        while i < self.invites.len()
            invariant
                i <= self.invites@.len(),
                s == self.invites_s(),
                p == invite_with(code@),
                forall|k: int| 0 <= k < i ==> !p(#[trigger] s[k]),
            decreases self.invites@.len() - i,
        {
            assert(s[i as int] == self.invites@[i as int]@);
            if str_equal(self.invites[i].code.as_str(), code) {
                proof {
                    lemma_first_where(s, p, i as int);
                }
                return Some(i);
            }
            i = i + 1;
        }
        proof {
            lemma_first_where(s, p, i as int);
        }
        None
    }

    /// `s` answers an invite code.  The code is used up whatever happens.  An
    /// unknown code and one older than ten minutes are refused; otherwise
    /// `s` and the inviting device become friends, `s` is told about the
    /// inviter (when it is online), and the inviter, when online, is told
    /// that `s` is online and is its new friend.
    pub fn accept_invite(&mut self, s: &Session, code: &str, now_ms: u64) -> (out: Vec<Outgoing>)
        requires
            old(self).wf(),
        ensures
            final(self).wf(),
            invite_answered(*old(self), *final(self), *s, code@, now_ms, out@),
    {
        let ghost v = self.invites_s();
        let mut out: Vec<Outgoing> = Vec::new();
        let entry = match self.find_invite(code) {
            Some(i) => {
                let e = self.invites.remove(i);
                assert(self.invites_s() =~= v.remove(i as int));
                assert(v[i as int] == e@);
                proof {
                    assert(self.pairs_s() =~= old(self).pairs_s());
                    assert(self.queues_s() =~= old(self).queues_s());
                }
                e
            },
            None => {
                out.push(
                    Outgoing {
                        to: Recipient::Me,
                        msg: S2cMsg::InviteResult {
                            success: false,
                            friend: None,
                            error: Some("邀请码无效或已过期".to_string()),
                        },
                    },
                );
                return out;
            },
        };
        if expired_at(entry.created_ms, now_ms) {
            out.push(
                Outgoing {
                    to: Recipient::Me,
                    msg: S2cMsg::InviteResult {
                        success: false,
                        friend: None,
                        error: Some("邀请码已过期".to_string()),
                    },
                },
            );
            return out;
        }
        let inviter = entry.device_id;
        self.befriend(s.device_id.as_str(), inviter.as_str());
        let my_info = FriendInfo {
            device_id: s.device_id.clone(),
            instance_name: s.instance_name.clone(),
            online: true,
            transfer_addr: Some(s.transfer_addr.clone()),
            iroh_addr: if s.iroh_addr.as_str().is_empty() {
                None
            } else {
                Some(s.iroh_addr.clone())
            },
        };
        let inviter_info = match self.find_online(inviter.as_str()) {
            Some(k) => {
                let e = &self.online[k];
                assert(self.online_s()[k as int] == e@);
                Some(
                    FriendInfo {
                        device_id: inviter.clone(),
                        instance_name: e.instance_name.clone(),
                        online: true,
                        transfer_addr: Some(e.transfer_addr.clone()),
                        iroh_addr: if e.iroh_addr.as_str().is_empty() {
                            None
                        } else {
                            Some(e.iroh_addr.clone())
                        },
                    },
                )
            },
            None => None,
        };
        let online = inviter_info.is_some();
        out.push(
            Outgoing {
                to: Recipient::Me,
                msg: S2cMsg::InviteResult { success: true, friend: inviter_info, error: None },
            },
        );
        if online {
            out.push(
                Outgoing {
                    to: Recipient::Device(inviter.clone()),
                    msg: S2cMsg::FriendOnline {
                        device_id: s.device_id.clone(),
                        instance_name: s.instance_name.clone(),
                        transfer_addr: s.transfer_addr.clone(),
                        iroh_addr: if s.iroh_addr.as_str().is_empty() {
                            None
                        } else {
                            Some(s.iroh_addr.clone())
                        },
                    },
                },
            );
            out.push(
                Outgoing {
                    to: Recipient::Device(inviter),
                    msg: S2cMsg::InviteResult { success: true, friend: Some(my_info), error: None },
                },
            );
        }
        out
    }

    fn set_online_addrs(&mut self, s: &Session)
        requires
            old(self).wf(),
        ensures
            final(self).wf(),
            ({
                let o = old(self).online_s();
                let i = first_where(o, on_id(s.device_id@));
                final(self).online_s() == if i >= 0 {
                    o.update(i, OnlineView { transfer_addr: s.transfer_addr@, iroh_addr: s.iroh_addr@, ..o[i] })
                } else {
                    o
                }
            }),
            final(self).pairs_s() == old(self).pairs_s(),
            final(self).invites_s() == old(self).invites_s(),
            final(self).queues_s() == old(self).queues_s(),
            final(self).relay_s() == old(self).relay_s(),
            final(self).stun_s() == old(self).stun_s(),
            final(self).iroh_relay_s() == old(self).iroh_relay_s(),
    {
        let ghost o = self.online_s();
        if let Some(i) = self.find_online(s.device_id.as_str()) {
            let e = &self.online[i];
            let ne = OnlineEntry {
                device_id: e.device_id.clone(),
                instance_name: e.instance_name.clone(),
                transfer_addr: s.transfer_addr.clone(),
                iroh_addr: s.iroh_addr.clone(),
            };
            let ghost nv = ne@;
            self.online.set(i, ne);
            assert(self.online_s() =~= o.update(i as int, nv));
            proof {
                assert(self.pairs_s() =~= old(self).pairs_s());
                assert(self.queues_s() =~= old(self).queues_s());
            }
        }
    }

    /// `s` announces a new transfer address: when it differs from the one
    /// known, it is recorded and the online friends are told.
    pub fn update_transfer_addr(&mut self, s: &mut Session, addr: String) -> (out: Vec<Outgoing>)
        requires
            old(self).wf(),
        ensures
            final(self).wf(),
            transfer_addr_updated(*old(self), *final(self), *old(s), *final(s), addr@, out@),
    {
        if str_equal(addr.as_str(), s.transfer_addr.as_str()) {
            return Vec::new();
        }
        s.transfer_addr = addr;
        self.set_online_addrs(s);
        self.notify_friends(s.device_id.as_str(), s, true)
    }

    /// `s` announces a new iroh address: when it differs from the one known,
    /// it is recorded and the online friends are told.
    pub fn update_iroh_addr(&mut self, s: &mut Session, addr: String) -> (out: Vec<Outgoing>)
        requires
            old(self).wf(),
        ensures
            final(self).wf(),
            iroh_addr_updated(*old(self), *final(self), *old(s), *final(s), addr@, out@),
    {
        if str_equal(addr.as_str(), s.iroh_addr.as_str()) {
            return Vec::new();
        }
        s.iroh_addr = addr;
        self.set_online_addrs(s);
        self.notify_friends(s.device_id.as_str(), s, true)
    }

    /// Handles one message of a registered connection at `now_ms`; `fresh`
    /// is a new random UUID's text, from which invite codes and relay
    /// session keys are made.  Each kind of message goes to its handler,
    /// whose effect the matching clause states; a second registration and a
    /// heartbeat change nothing and send nothing.
    pub fn handle_message(&mut self, s: &mut Session, msg: C2sMsg, now_ms: u64, fresh: &str) -> (out: Vec<
        Outgoing,
    >)
        requires
            old(self).wf(),
            hyphenated_uuid(fresh@),
        ensures
            final(self).wf(),
            match msg {
                C2sMsg::Register { .. } => out@.len() == 0 && *final(self) == *old(self) && *final(s)
                    == *old(s),
                C2sMsg::Heartbeat => out@.len() == 0 && *final(self) == *old(self) && *final(s) == *old(s),
                C2sMsg::UpdateTransferAddr { transfer_addr } => transfer_addr_updated(
                    *old(self),
                    *final(self),
                    *old(s),
                    *final(s),
                    transfer_addr@,
                    out@,
                ),
                C2sMsg::UpdateIrohAddr { iroh_addr } => iroh_addr_updated(
                    *old(self),
                    *final(self),
                    *old(s),
                    *final(s),
                    iroh_addr@,
                    out@,
                ),
                C2sMsg::GenerateInvite => *final(s) == *old(s) && invite_made(
                    *old(self),
                    *final(self),
                    *old(s),
                    now_ms,
                    fresh@,
                    out@,
                ),
                C2sMsg::AcceptInvite { code } => *final(s) == *old(s) && invite_answered(
                    *old(self),
                    *final(self),
                    *old(s),
                    code@,
                    now_ms,
                    out@,
                ),
                C2sMsg::RequestRelay { to_device_id } => *final(s) == *old(s) && *final(self) == *old(self)
                    && relay_offered(*old(self), *old(s), to_device_id@, fresh@, out@),
                C2sMsg::RelayMessage { to_device_id, content, timestamp } => *final(s) == *old(s) && relayed(
                    *old(self),
                    *final(self),
                    *old(s),
                    to_device_id@,
                    content,
                    timestamp,
                    out@,
                ),
            },
    {
        match msg {
            C2sMsg::Register { .. } => Vec::new(),
            C2sMsg::Heartbeat => Vec::new(),
            C2sMsg::UpdateTransferAddr { transfer_addr } => self.update_transfer_addr(s, transfer_addr),
            C2sMsg::UpdateIrohAddr { iroh_addr } => self.update_iroh_addr(s, iroh_addr),
            C2sMsg::GenerateInvite => self.generate_invite(s, now_ms, fresh),
            C2sMsg::AcceptInvite { code } => self.accept_invite(s, code.as_str(), now_ms),
            C2sMsg::RequestRelay { to_device_id } => self.request_relay(s, to_device_id.as_str(), fresh),
            C2sMsg::RelayMessage { to_device_id, content, timestamp } => self.relay_message(
                s,
                to_device_id.as_str(),
                content,
                timestamp,
            ),
        }
    }
}

/// A chat message for a friend who is offline waits for it: when the friend
/// next registers, it is first told the messages kept for it, and this
/// message is the last of them (when 200 were already waiting it is dropped,
/// and nothing is claimed).
pub proof fn law_offline_message_delivered_on_register(
    pre: ServerState,
    mid: ServerState,
    post: ServerState,
    from: Session,
    to: Session,
    content: String,
    timestamp: u64,
    out: Seq<Outgoing>,
    observed_ip: Seq<char>,
    replies: Seq<S2cMsg>,
)
    requires
        pre.pairs_s().contains((from.device_id@, to.device_id@)),
        !is_online(pre.online_s(), to.device_id@),
        ({
            let q = pre.queues_s();
            let i = first_where(q, queue_of(to.device_id@));
            i < 0 || q[i].messages.len() < MAX_OFFLINE_MSGS
        }),
        relayed(pre, mid, from, to.device_id@, content, timestamp, out),
        registration_answered(mid, post, to, observed_ip, replies),
    ensures
        out.len() == 0,
        replies.len() == 2,
        replies[0] matches S2cMsg::OfflineMessages { messages } && messages@.last() == (OfflineMsg {
            from_device_id: from.device_id,
            from_instance_name: from.instance_name,
            content,
            timestamp,
        }),
{
    let p = queue_of(to.device_id@);
    let q = pre.queues_s();
    let q2 = mid.queues_s();
    let i = first_where(q, p);
    lemma_first_where_props(q, p);
    if i >= 0 {
        assert forall|k: int| 0 <= k < i implies !p(#[trigger] q2[k]) by {
            assert(q2[k] == q[k]);
        }
        assert(p(q2[i]));
        lemma_first_where(q2, p, i);
    } else {
        assert forall|k: int| 0 <= k < q.len() implies !p(#[trigger] q2[k]) by {
            assert(q2[k] == q[k]);
        }
        assert(p(q2[q.len() as int]));
        lemma_first_where(q2, p, q.len() as int);
    }
}

/// Once a device has registered, no messages wait for it any more: its
/// queue was handed over whole and none is left.
pub proof fn law_no_queue_left_after_register(
    pre: ServerState,
    post: ServerState,
    s: Session,
    observed_ip: Seq<char>,
    replies: Seq<S2cMsg>,
)
    requires
        pre.wf(),
        registration_answered(pre, post, s, observed_ip, replies),
    ensures
        first_where(post.queues_s(), queue_of(s.device_id@)) == -1,
{
    let q = pre.queues_s();
    let p = queue_of(s.device_id@);
    lemma_first_where_props(q, p);
    let i = first_where(q, p);
    let t = post.queues_s();
    assert forall|k: int| 0 <= k < t.len() implies !p(#[trigger] t[k]) by {
        if i >= 0 {
            if k < i {
                assert(t[k] == q[k]);
            } else {
                assert(t[k] == q[k + 1]);
                assert(q[i].device_id != q[k + 1].device_id);
            }
        }
    }
    lemma_first_where(t, p, t.len() as int);
}

/// An invite code is used up once it is answered, whether it was accepted,
/// expired or unknown: no entry with it is left.
pub proof fn law_answered_code_is_gone(
    pre: ServerState,
    post: ServerState,
    s: Session,
    code: Seq<char>,
    now_ms: u64,
    out: Seq<Outgoing>,
)
    requires
        pre.wf(),
        invite_answered(pre, post, s, code, now_ms, out),
    ensures
        first_where(post.invites_s(), invite_with(code)) == -1,
{
    let v = pre.invites_s();
    let p = invite_with(code);
    lemma_first_where_props(v, p);
    let i = first_where(v, p);
    let t = post.invites_s();
    assert forall|k: int| 0 <= k < t.len() implies !p(#[trigger] t[k]) by {
        if i >= 0 {
            if k < i {
                assert(t[k] == v[k]);
            } else {
                assert(t[k] == v[k + 1]);
                assert(v[i].code != v[k + 1].code);
            }
        }
    }
    lemma_first_where(t, p, t.len() as int);
}

/// Messages for a device that is offline wait for it, but never more than
/// 200 of them, in every state the server can reach.
pub proof fn law_offline_queue_bounded(s: ServerState, i: int)
    requires
        s.wf(),
        0 <= i < s.queues_s().len(),
    ensures
        s.queues_s()[i].messages.len() <= MAX_OFFLINE_MSGS,
{
}

/// Whether an invite made at `created_ms` has expired at `now_ms`: more than
/// ten minutes have passed (a creation time after `now_ms` counts as none).
pub open spec fn invite_expired(i: InviteView, now_ms: u64) -> bool {
    now_ms > i.created_ms && now_ms - i.created_ms > INVITE_TTL_MS
}

fn expired_at(created_ms: u64, now_ms: u64) -> (r: bool)
    ensures
        r == (now_ms > created_ms && now_ms - created_ms > INVITE_TTL_MS),
{
    now_ms > created_ms && now_ms - created_ms > INVITE_TTL_MS
}

/// Friendship on the server goes both ways, in every state the server can
/// reach: whenever `a` counts `b` as a friend, `b` counts `a`.
pub proof fn law_friendship_symmetric(s: ServerState, a: Seq<char>, b: Seq<char>)
    requires
        s.wf(),
        s.pairs_s().contains((a, b)),
    ensures
        s.pairs_s().contains((b, a)),
{
}

} // verus!
