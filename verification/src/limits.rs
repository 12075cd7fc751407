//! Admission control of the rendezvous server: how many connections it
//! holds in all and per client address, how many messages one connection
//! may send per second, and how large one message may be.
use vstd::prelude::*;
use crate::lists::{first_where, lemma_first_where, lemma_first_where_props};
use crate::text::str_equal;

verus! {

/// The server's limits.
#[derive(Clone, Copy, Debug, PartialEq, Eq, Structural)]
pub struct ServerLimits {
    /// Connections held at once, in all.
    pub max_connections: u32,
    /// Connections held at once from one client address.
    pub max_connections_per_ip: u32,
    /// Messages one connection may send within one second.
    pub rate_limit_msgs_per_sec: u32,
    /// Bytes one message body may have.
    pub max_msg_bytes: u32,
}

impl Default for ServerLimits {
    /// 500 connections, 5 per address, 20 messages per second, 64 KiB per
    /// message.
    fn default() -> (l: ServerLimits)
        ensures
            l.max_connections == 500,
            l.max_connections_per_ip == 5,
            l.rate_limit_msgs_per_sec == 20,
            l.max_msg_bytes == 65536,
    {
        ServerLimits {
            max_connections: 500,
            max_connections_per_ip: 5,
            rate_limit_msgs_per_sec: 20,
            max_msg_bytes: 65536,
        }
    }
}

/// Whether a message body of `len` bytes may be read.
pub fn message_size_ok(len: u32, limits: &ServerLimits) -> (ok: bool)
    ensures
        ok == (len <= limits.max_msg_bytes),
{
    len <= limits.max_msg_bytes
}

// ---------------------------------------------------------------------------
// Connections per address.
// ---------------------------------------------------------------------------

/// Whether a counter entry belongs to address `ip`.
pub open spec fn has_ip(ip: Seq<char>) -> spec_fn((Seq<char>, u32)) -> bool {
    |e: (Seq<char>, u32)| e.0 == ip
}

/// How many connections the entries `s` count for `ip`.
pub open spec fn ip_count(s: Seq<(Seq<char>, u32)>, ip: Seq<char>) -> nat {
    let i = first_where(s, has_ip(ip));
    if i < 0 {
        0
    } else {
        s[i].1 as nat
    }
}

/// The connections the entries `s` count in all.
pub open spec fn count_sum(s: Seq<(Seq<char>, u32)>) -> nat
    decreases s.len(),
{
    if s.len() == 0 {
        0
    } else {
        count_sum(s.drop_last()) + s.last().1 as nat
    }
}

/// The entries after one more connection from `ip`.
pub open spec fn admitted(s: Seq<(Seq<char>, u32)>, ip: Seq<char>) -> Seq<(Seq<char>, u32)> {
    let i = first_where(s, has_ip(ip));
    if i < 0 {
        s.push((ip, 1u32))
    } else {
        s.update(i, (ip, (s[i].1 + 1) as u32))
    }
}

/// The entries after one connection from `ip` ended: its count goes down,
/// and the entry goes when it reaches zero.
pub open spec fn released(s: Seq<(Seq<char>, u32)>, ip: Seq<char>) -> Seq<(Seq<char>, u32)> {
    let i = first_where(s, has_ip(ip));
    if i < 0 {
        s
    } else if s[i].1 <= 1 {
        s.remove(i)
    } else {
        s.update(i, (ip, (s[i].1 - 1) as u32))
    }
}

proof fn lemma_sum_push(s: Seq<(Seq<char>, u32)>, e: (Seq<char>, u32))
    ensures
        count_sum(s.push(e)) == count_sum(s) + e.1,
{
    assert(s.push(e).drop_last() =~= s);
}

proof fn lemma_sum_update(s: Seq<(Seq<char>, u32)>, i: int, e: (Seq<char>, u32))
    requires
        0 <= i < s.len(),
    ensures
        count_sum(s.update(i, e)) == count_sum(s) - s[i].1 + e.1,
    decreases s.len(),
{
    if i < s.len() - 1 {
        lemma_sum_update(s.drop_last(), i, e);
        assert(s.update(i, e).drop_last() =~= s.drop_last().update(i, e));
    } else {
        assert(s.update(i, e).drop_last() =~= s.drop_last());
    }
}

proof fn lemma_sum_remove(s: Seq<(Seq<char>, u32)>, i: int)
    requires
        0 <= i < s.len(),
    ensures
        count_sum(s.remove(i)) == count_sum(s) - s[i].1,
    decreases s.len(),
{
    if i < s.len() - 1 {
        lemma_sum_remove(s.drop_last(), i);
        assert(s.remove(i).drop_last() =~= s.drop_last().remove(i));
        assert(s.remove(i).last() == s.last());
    } else {
        assert(s.remove(i) =~= s.drop_last());
    }
}

/// Connections held, counted per client address.
pub struct ConnectionCounter {
    limits: ServerLimits,
    total: u32,
    per_ip: Vec<(String, u32)>,
}

impl ConnectionCounter {
    pub closed spec fn limits_s(&self) -> ServerLimits {
        self.limits
    }

    pub closed spec fn total_s(&self) -> nat {
        self.total as nat
    }

    pub closed spec fn entries_s(&self) -> Seq<(Seq<char>, u32)> {
        self.per_ip@.map_values(|e: (String, u32)| (e.0@, e.1))
    }

    /// How many connections from `ip` are held.
    pub open spec fn count_of(&self, ip: Seq<char>) -> nat {
        ip_count(self.entries_s(), ip)
    }

    /// The total is the sum of the per-address counts, every entry counts
    /// at least one connection, and no count exceeds its limit.
    pub closed spec fn wf(&self) -> bool {
        let s = self.entries_s();
        &&& self.total_s() == count_sum(s)
        &&& self.total_s() <= self.limits.max_connections
        &&& forall|k: int| 0 <= k < s.len() ==> 0 < #[trigger] s[k].1 <= self.limits.max_connections_per_ip
    }

    /// A counter that holds no connection.
    pub fn new(limits: ServerLimits) -> (c: ConnectionCounter)
        ensures
            c.wf(),
            c.limits_s() == limits,
            c.total_s() == 0,
            c.entries_s() == Seq::<(Seq<char>, u32)>::empty(),
    {
        let c = ConnectionCounter { limits, total: 0, per_ip: Vec::new() };
        assert(c.entries_s() =~= Seq::<(Seq<char>, u32)>::empty());
        c
    }

    /// How many connections are held in all.
    pub fn total(&self) -> (n: u32)
        ensures
            n == self.total_s(),
    {
        self.total
    }

    fn find(&self, ip: &str) -> (r: Option<usize>)
        ensures
            match r {
                Some(i) => i < self.per_ip@.len() && i == first_where(self.entries_s(), has_ip(ip@)),
                None => first_where(self.entries_s(), has_ip(ip@)) == -1,
            },
    {
        let ghost s = self.entries_s();
        let ghost p = has_ip(ip@);
        let mut i: usize = 0;
        while i < self.per_ip.len()
            invariant
                i <= self.per_ip@.len(),
                s == self.entries_s(),
                s.len() == self.per_ip@.len(),
                p == has_ip(ip@),
                forall|k: int| 0 <= k < i ==> !p(#[trigger] s[k]),
            decreases self.per_ip@.len() - i,
        {
            assert(s[i as int] == (self.per_ip@[i as int].0@, self.per_ip@[i as int].1));
            if str_equal(self.per_ip[i].0.as_str(), ip) {
                proof {
                    lemma_first_where(s, p, i as int);
                }
                return Some(i);
            }
            i = i + 1;
        }
        proof {
            lemma_first_where(s, p, i as int);
        }
        None
    }

    /// Admits a new connection from `ip` when fewer than the limit are held
    /// in all and from that address; otherwise nothing changes and the
    /// connection is to be closed.
    pub fn try_admit(&mut self, ip: &str) -> (ok: bool)
        requires
            old(self).wf(),
        ensures
            final(self).wf(),
            final(self).limits_s() == old(self).limits_s(),
            ok == (old(self).total_s() < old(self).limits_s().max_connections && old(self).count_of(ip@)
                < old(self).limits_s().max_connections_per_ip),
            ok ==> final(self).total_s() == old(self).total_s() + 1 && final(self).entries_s() == admitted(
                old(self).entries_s(),
                ip@,
            ),
            !ok ==> final(self).total_s() == old(self).total_s() && final(self).entries_s() == old(
                self,
            ).entries_s(),
    {
        let ghost s = self.entries_s();
        proof {
            lemma_first_where_props(s, has_ip(ip@));
        }
        if self.total >= self.limits.max_connections {
            return false;
        }
        match self.find(ip) {
            None => {
                if self.limits.max_connections_per_ip == 0 {
                    return false;
                }
                self.per_ip.push((ip.to_owned(), 1));
                self.total = self.total + 1;
                proof {
                    assert(self.entries_s() =~= s.push((ip@, 1u32)));
                    lemma_sum_push(s, (ip@, 1u32));
                    let t = self.entries_s();
                    assert forall|k: int| 0 <= k < t.len() implies 0 < #[trigger] t[k].1
                        <= self.limits.max_connections_per_ip by {
                        if k < s.len() {
                            assert(t[k] == s[k]);
                        }
                    }
                }
                true
            },
            Some(i) => {
                let c = self.per_ip[i].1;
                assert(s[i as int].1 == c);
                if c >= self.limits.max_connections_per_ip {
                    return false;
                }
                let key = self.per_ip[i].0.clone();
                self.per_ip.set(i, (key, c + 1));
                self.total = self.total + 1;
                proof {
                    assert(s[i as int].0 == ip@);
                    assert(self.entries_s() =~= s.update(i as int, (ip@, (c + 1) as u32)));
                    lemma_sum_update(s, i as int, (ip@, (c + 1) as u32));
                    let t = self.entries_s();
                    assert forall|k: int| 0 <= k < t.len() implies 0 < #[trigger] t[k].1
                        <= self.limits.max_connections_per_ip by {
                        if k != i {
                            assert(t[k] == s[k]);
                        }
                    }
                }
                true
            },
        }
    }

    /// Records that a connection from `ip` ended.
    pub fn release(&mut self, ip: &str)
        requires
            old(self).wf(),
        ensures
            final(self).wf(),
            final(self).limits_s() == old(self).limits_s(),
            final(self).entries_s() == released(old(self).entries_s(), ip@),
            final(self).total_s() == old(self).total_s() - (if old(self).count_of(ip@) > 0 {
                1int
            } else {
                0int
            }),
    {
        let ghost s = self.entries_s();
        proof {
            lemma_first_where_props(s, has_ip(ip@));
        }
        match self.find(ip) {
            None => {},
            Some(i) => {
                let c = self.per_ip[i].1;
                assert(s[i as int].1 == c);
                assert(s[i as int].0 == ip@);
                proof {
                    lemma_sum_remove(s, i as int);
                }
                if c <= 1 {
                    self.per_ip.remove(i);
                    self.total = self.total - 1;
                    proof {
                        assert(self.entries_s() =~= s.remove(i as int));
                        let t = self.entries_s();
                        assert forall|k: int| 0 <= k < t.len() implies 0 < #[trigger] t[k].1
                            <= self.limits.max_connections_per_ip by {
                            if k < i {
                                assert(t[k] == s[k]);
                            } else {
                                assert(t[k] == s[k + 1]);
                            }
                        }
                    }
                } else {
                    let key = self.per_ip[i].0.clone();
                    self.per_ip.set(i, (key, c - 1));
                    self.total = self.total - 1;
                    proof {
                        assert(self.entries_s() =~= s.update(i as int, (ip@, (c - 1) as u32)));
                        lemma_sum_update(s, i as int, (ip@, (c - 1) as u32));
                        let t = self.entries_s();
                        assert forall|k: int| 0 <= k < t.len() implies 0 < #[trigger] t[k].1
                            <= self.limits.max_connections_per_ip by {
                            if k != i {
                                assert(t[k] == s[k]);
                            }
                        }
                    }
                }
            },
        }
    }
}

/// The server never holds more connections than its limits allow, in all
/// or from one address.
pub proof fn law_connections_within_limits(c: ConnectionCounter, ip: Seq<char>)
    requires
        c.wf(),
    ensures
        c.total_s() <= c.limits_s().max_connections,
        c.count_of(ip) <= c.limits_s().max_connections_per_ip,
{
    lemma_first_where_props(c.entries_s(), has_ip(ip));
}

/// A connection that is admitted and then ends leaves the per-address
/// counts as they were.
pub proof fn law_release_undoes_admit(s: Seq<(Seq<char>, u32)>, ip: Seq<char>)
    requires
        forall|k: int| 0 <= k < s.len() ==> #[trigger] s[k].1 > 0,
        ip_count(s, ip) < u32::MAX,
    ensures
        released(admitted(s, ip), ip) == s,
        count_sum(admitted(s, ip)) == count_sum(s) + 1,
{
    let p = has_ip(ip);
    lemma_first_where_props(s, p);
    let i = first_where(s, p);
    if i < 0 {
        let t = s.push((ip, 1u32));
        assert forall|k: int| 0 <= k < s.len() implies !p(#[trigger] t[k]) by {
            assert(t[k] == s[k]);
        }
        lemma_first_where(t, p, s.len() as int);
        assert(t.remove(s.len() as int) =~= s);
        lemma_sum_push(s, (ip, 1u32));
    } else {
        let t = s.update(i, (ip, (s[i].1 + 1) as u32));
        assert forall|k: int| 0 <= k < i implies !p(#[trigger] t[k]) by {
            assert(t[k] == s[k]);
        }
        lemma_first_where(t, p, i);
        assert(t.update(i, (ip, (t[i].1 - 1) as u32)) =~= s);
        lemma_sum_update(s, i, (ip, (s[i].1 + 1) as u32));
    }
}

// ---------------------------------------------------------------------------
// Messages per second on one connection.
// ---------------------------------------------------------------------------

/// What one message arriving at `now_ms` does to a connection's rate window
/// that started at `start` and has let `count` messages through: a window
/// lasts one second (a clock that went back keeps the window); the message
/// passes while fewer than `limit` passed in the current window.  The new
/// start, the new count, and whether it passes.
pub open spec fn rate_step(start: u64, count: u32, now_ms: u64, limit: u32) -> (u64, u32, bool) {
    let (s, c) = if now_ms >= start && now_ms - start >= 1000 {
        (now_ms, 0u32)
    } else {
        (start, count)
    };
    if c < limit {
        (s, (c + 1) as u32, true)
    } else {
        (s, c, false)
    }
}

/// The message rate of one connection.
pub struct MessageRate {
    window_start_ms: u64,
    count: u32,
}

impl MessageRate {
    pub closed spec fn start_s(&self) -> u64 {
        self.window_start_ms
    }

    pub closed spec fn count_s(&self) -> u32 {
        self.count
    }

    /// A connection that opened at `now_ms` and has sent nothing.
    pub fn new(now_ms: u64) -> (r: MessageRate)
        ensures
            r.start_s() == now_ms,
            r.count_s() == 0,
    {
        MessageRate { window_start_ms: now_ms, count: 0 }
    }

    /// Whether a message arriving at `now_ms` may be handled under a limit of
    /// `limit` messages per second; one that may not is dropped.
    pub fn allow(&mut self, now_ms: u64, limit: u32) -> (ok: bool)
        ensures
            (final(self).start_s(), final(self).count_s(), ok) == rate_step(
                old(self).start_s(),
                old(self).count_s(),
                now_ms,
                limit,
            ),
    {
        if now_ms >= self.window_start_ms && now_ms - self.window_start_ms >= 1000 {
            self.window_start_ms = now_ms;
            self.count = 0;
        }
        if self.count < limit {
            self.count = self.count + 1;
            true
        } else {
            false
        }
    }
}

/// How many of the messages arriving at `times`, in turn, pass, starting
/// from a window that started at `start` and let `count` through.
pub open spec fn passed(start: u64, count: u32, times: Seq<u64>, limit: u32) -> nat
    decreases times.len(),
{
    if times.len() == 0 {
        0
    } else {
        let (s, c, ok) = rate_step(start, count, times[0], limit);
        (if ok {
            1nat
        } else {
            0nat
        }) + passed(s, c, times.drop_first(), limit)
    }
}

/// Within one window no more than `limit` messages pass: of messages that
/// all arrive less than a second after the window started, at most as many
/// pass as the window has room left for.
pub proof fn law_rate_bounded_within_window(start: u64, count: u32, times: Seq<u64>, limit: u32)
    requires
        count <= limit,
        forall|k: int| 0 <= k < times.len() ==> start <= #[trigger] times[k] < start + 1000,
    ensures
        passed(start, count, times, limit) <= limit - count,
    decreases times.len(),
{
    if times.len() > 0 {
        let (s, c, ok) = rate_step(start, count, times[0], limit);
        assert(s == start);
        assert forall|k: int| 0 <= k < times.drop_first().len() implies start <= #[trigger] times.drop_first()[k]
            < start + 1000 by {
            assert(times.drop_first()[k] == times[k + 1]);
        }
        law_rate_bounded_within_window(start, c, times.drop_first(), limit);
    }
}

} // verus!
