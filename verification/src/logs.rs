//! Rotation of the daily log files: which old ones to delete.  Listing the
//! log directory and deleting files happen outside the library.
use vstd::prelude::*;
use crate::text::{chars_of, compare_str, compare_chars, lemma_compare_antisym, lemma_compare_trans};

verus! {

broadcast use vstd::seq_lib::group_to_multiset_ensures;

/// Whether `s` begins with `p`.
pub open spec fn has_prefix(s: Seq<char>, p: Seq<char>) -> bool {
    p.len() <= s.len() && s.take(p.len() as int) == p
}

/// The text of each name.
pub open spec fn name_views(v: Seq<String>) -> Seq<Seq<char>> {
    v.map_values(|s: String| s@)
}

/// Names in ascending order (the order of `String`).
pub open spec fn names_sorted(s: Seq<Seq<char>>) -> bool {
    forall|i: int, j: int| 0 <= i < j < s.len() ==> compare_chars(#[trigger] s[i], #[trigger] s[j]) <= 0
}

/// The names of a directory listing that belong to the daily log, whose
/// files are named `netfile.log` followed by their date.
pub open spec fn log_names(names: Seq<Seq<char>>) -> Seq<Seq<char>> {
    names.filter(|n: Seq<char>| has_prefix(n, "netfile.log"@))
}

/// Whether `s` starts with `p`.
fn starts_with(s: &str, p: &str) -> (r: bool)
    ensures
        r == has_prefix(s@, p@),
{
    let a = chars_of(s);
    let b = chars_of(p);
    if b.len() > a.len() {
        return false;
    }
    let mut i: usize = 0;
    while i < b.len()
        invariant
            i <= b@.len(),
            a@ == s@,
            b@ == p@,
            b@.len() <= a@.len(),
            forall|k: int| 0 <= k < i ==> a@[k] == b@[k],
        decreases b@.len() - i,
    {
        if a[i] != b[i] {
            assert(a@.take(b@.len() as int)[i as int] == a@[i as int]);
            assert(a@.take(b@.len() as int) != b@);
            return false;
        }
        i = i + 1;
    }
    assert(a@.take(b@.len() as int) =~= b@);
    true
}

/// Sorts names in ascending order, keeping each of them.
fn sort_names(v: Vec<String>) -> (out: Vec<String>)
    ensures
        names_sorted(name_views(out@)),
        name_views(out@).to_multiset() == name_views(v@).to_multiset(),
{
    let mut out: Vec<String> = Vec::new();
    let n = v.len();
    let mut i: usize = 0;
    while i < n
        invariant
            n == v@.len(),
            i <= n,
            names_sorted(name_views(out@)),
            name_views(out@).to_multiset() == name_views(v@.take(i as int)).to_multiset(),
        decreases n - i,
    {
        let d = v[i].clone();
        let ghost dv = d@;
        let ghost old_out = name_views(out@);
        let mut pos: usize = 0;
        while pos < out.len() && compare_str(d.as_str(), out[pos].as_str()) >= 0
            invariant
                pos <= out@.len(),
                old_out == name_views(out@),
                dv == d@,
                forall|k: int| 0 <= k < pos ==> compare_chars(dv, #[trigger] old_out[k]) >= 0,
            decreases out@.len() - pos,
        {
            pos = pos + 1;
        }
        proof {
            if pos < old_out.len() {
                assert(compare_chars(dv, old_out[pos as int]) < 0);
            }
        }
        out.insert(pos, d);
        proof {
            let now = name_views(out@);
            assert(now =~= old_out.insert(pos as int, dv));
            assert forall|a: int, b: int| 0 <= a < b < now.len() implies compare_chars(
                #[trigger] now[a],
                #[trigger] now[b],
            ) <= 0 by {
                if b < pos {
                    assert(now[a] == old_out[a] && now[b] == old_out[b]);
                } else if b == pos {
                    assert(now[a] == old_out[a]);
                    lemma_compare_antisym(dv, old_out[a]);
                } else if a == pos {
                    assert(now[b] == old_out[b - 1]);
                    if b - 1 > pos {
                        assert(compare_chars(old_out[pos as int], old_out[b - 1]) <= 0);
                        lemma_compare_trans(dv, old_out[pos as int], old_out[b - 1]);
                    }
                } else if a < pos {
                    assert(now[a] == old_out[a] && now[b] == old_out[b - 1]);
                } else {
                    assert(now[a] == old_out[a - 1] && now[b] == old_out[b - 1]);
                }
            }
            assert(name_views(v@.take(i + 1)) =~= name_views(v@.take(i as int)).push(dv));
        }
        i = i + 1;
    }
    assert(v@.take(n as int) =~= v@);
    out
}

/// The log files to delete from a directory holding the files `names` so
/// that at most `max_files` log files remain: the log files in name order
/// (which is date order), all but the last `max_files`.
pub fn old_logs(names: &Vec<String>, max_files: usize) -> (out: Vec<String>)
    ensures
        exists|s: Seq<Seq<char>>|
            {
                &&& names_sorted(s)
                &&& s.to_multiset() == log_names(name_views(names@)).to_multiset()
                &&& name_views(out@) == if s.len() > max_files {
                    s.take(s.len() - max_files)
                } else {
                    Seq::<Seq<char>>::empty()
                }
            },
{
    let prefix = "netfile.log";
    let ghost pred = |n: Seq<char>| has_prefix(n, "netfile.log"@);
    let mut logs: Vec<String> = Vec::new();
    let mut i: usize = 0;
    while i < names.len()
        invariant
            i <= names@.len(),
            prefix@ == "netfile.log"@,
            pred == (|n: Seq<char>| has_prefix(n, "netfile.log"@)),
            name_views(logs@) == name_views(names@.take(i as int)).filter(pred),
        decreases names@.len() - i,
    {
        let name = &names[i];
        proof {
            assert(name_views(names@.take(i + 1)) =~= name_views(names@.take(i as int)).push(name@));
            name_views(names@.take(i as int)).lemma_filter_push(name@, pred);
        }
        if starts_with(name.as_str(), prefix) {
            logs.push(name.clone());
            proof {
                assert(name_views(logs@) =~= name_views(names@.take(i as int)).filter(pred).push(name@));
            }
        }
        i = i + 1;
    }
    assert(names@.take(names@.len() as int) =~= names@);
    let sorted = sort_names(logs);
    let mut out: Vec<String> = Vec::new();
    if sorted.len() > max_files {
        let k = sorted.len() - max_files;
        let mut j: usize = 0;
        while j < k
            invariant
                j <= k,
                k <= sorted@.len(),
                out@.len() == j,
                name_views(out@) == name_views(sorted@).take(j as int),
            decreases k - j,
        {
            let ghost before = out@;
            let x = sorted[j].clone();
            assert(x@ == sorted@[j as int]@);
            out.push(x);
            proof {
                assert(out@ =~= before.push(x));
                assert(name_views(out@) =~= name_views(before).push(x@));
                assert(name_views(out@) =~= name_views(sorted@).take(j + 1));
            }
            j = j + 1;
        }
    } else {
        assert(name_views(out@) =~= Seq::<Seq<char>>::empty());
    }
    proof {
        let s = name_views(sorted@);
        assert(s.len() == sorted@.len());
    }
    out
}

} // verus!
