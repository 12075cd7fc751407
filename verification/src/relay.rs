//! Pairing of relay connections.  Each connection to the relay port
//! announces a session key; the first connection with a key waits, and the
//! next one with the same key takes it out of the waiting list and is piped
//! to it.  Connections are named here by numbers that the server hands out.
use vstd::prelude::*;
use crate::lists::{first_where, lemma_first_where, lemma_first_where_props};
use crate::text::str_equal;

verus! {

/// Whether a waiting entry carries session key `key`.
pub open spec fn has_key(key: Seq<char>) -> spec_fn((Seq<char>, u64)) -> bool {
    |e: (Seq<char>, u64)| e.0 == key
}

/// What an arrival with `key` on connection `conn` does to the waiting list
/// `s`: when a connection waits under that key, it leaves the list and is
/// the partner; otherwise the newcomer is appended and waits.
pub open spec fn after_arrival(s: Seq<(Seq<char>, u64)>, key: Seq<char>, conn: u64) -> (
    Seq<(Seq<char>, u64)>,
    Option<u64>,
) {
    let i = first_where(s, has_key(key));
    if i < 0 {
        (s.push((key, conn)), None)
    } else {
        (s.remove(i), Some(s[i].1))
    }
}

/// The connections that wait for a partner, with their session keys, in
/// the order they arrived.
pub struct RelayWaitlist {
    waiting: Vec<(String, u64)>,
}

impl RelayWaitlist {
    pub closed spec fn waiting_s(&self) -> Seq<(Seq<char>, u64)> {
        self.waiting@.map_values(|e: (String, u64)| (e.0@, e.1))
    }

    /// An empty waiting list.
    pub fn new() -> (w: RelayWaitlist)
        ensures
            w.waiting_s() == Seq::<(Seq<char>, u64)>::empty(),
    {
        RelayWaitlist { waiting: Vec::new() }
    }

    /// How many connections wait.
    pub fn len(&self) -> (n: usize)
        ensures
            n == self.waiting_s().len(),
    {
        self.waiting.len()
    }

    /// Records that connection `conn` arrived with session key `key`: returns
    /// the connection it is to be piped to, which then no longer waits, or
    /// `None` when it has to wait itself.
    pub fn arrive(&mut self, key: String, conn: u64) -> (partner: Option<u64>)
        ensures
            (final(self).waiting_s(), partner) == after_arrival(old(self).waiting_s(), key@, conn),
    {
        let ghost s = self.waiting_s();
        let ghost p = has_key(key@);
        let mut i: usize = 0;
        while i < self.waiting.len()
            invariant
                i <= self.waiting@.len(),
                s == self.waiting_s(),
                s == old(self).waiting_s(),
                s.len() == self.waiting@.len(),
                p == has_key(key@),
                forall|k: int| 0 <= k < i ==> !p(#[trigger] s[k]),
            decreases self.waiting@.len() - i,
        {
            assert(s[i as int] == (self.waiting@[i as int].0@, self.waiting@[i as int].1));
            if str_equal(self.waiting[i].0.as_str(), key.as_str()) {
                proof {
                    lemma_first_where(s, p, i as int);
                }
                let ghost before = self.waiting@;
                let e = self.waiting.remove(i);
                proof {
                    assert(e == before[i as int]);
                    assert(s[i as int].1 == e.1);
                    assert(self.waiting_s() =~= s.remove(i as int));
                }
                return Some(e.1);
            }
            i = i + 1;
        }
        proof {
            lemma_first_where(s, p, i as int);
        }
        self.waiting.push((key, conn));
        proof {
            assert(self.waiting_s() =~= s.push((key@, conn)));
        }
        None
    }
}

/// Of two connections that arrive one after the other with the same key,
/// while no other connection waits under it, the second is piped to the
/// first, and the waiting list is as it was before the first arrived.
pub proof fn law_same_key_arrivals_are_paired(s: Seq<(Seq<char>, u64)>, key: Seq<char>, first: u64, second: u64)
    requires
        first_where(s, has_key(key)) == -1,
    ensures
        after_arrival(s, key, first).1 is None,
        after_arrival(after_arrival(s, key, first).0, key, second) == (s, Some(first)),
{
    let t = s.push((key, first));
    lemma_first_where_props(s, has_key(key));
    assert forall|k: int| 0 <= k < s.len() implies !has_key(key)(#[trigger] t[k]) by {
        assert(t[k] == s[k]);
    }
    lemma_first_where(t, has_key(key), s.len() as int);
    assert(t.remove(s.len() as int) =~= s);
}

/// An arrival never leaves two waiting connections under one key: when no
/// key waits twice before, none does after.
pub proof fn law_waiting_keys_stay_distinct(s: Seq<(Seq<char>, u64)>, key: Seq<char>, conn: u64)
    requires
        forall|i: int, j: int| 0 <= i < j < s.len() ==> s[i].0 != s[j].0,
    ensures
        ({
            let t = after_arrival(s, key, conn).0;
            forall|i: int, j: int| 0 <= i < j < t.len() ==> t[i].0 != t[j].0
        }),
{
    lemma_first_where_props(s, has_key(key));
    let i = first_where(s, has_key(key));
    if i < 0 {
        let t = s.push((key, conn));
        assert forall|a: int, b: int| 0 <= a < b < t.len() implies t[a].0 != t[b].0 by {
            if b == s.len() {
                assert(!has_key(key)(s[a]));
            }
        }
    } else {
        let t = s.remove(i);
        assert forall|a: int, b: int| 0 <= a < b < t.len() implies t[a].0 != t[b].0 by {
            let a0 = if a < i { a } else { a + 1 };
            let b0 = if b < i { b } else { b + 1 };
            assert(t[a] == s[a0]);
            assert(t[b] == s[b0]);
        }
    }
}

} // verus!
