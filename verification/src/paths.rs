//! Paths as `/`-separated text.  Joining a component onto a directory and
//! taking a path's last component follow what `Path::join` and
//! `Path::file_name` do on Unix.
use vstd::prelude::*;
use crate::text::{chars_of, string_of, extend_chars};

verus! {

/// `base` joined with `part`: an absolute `part` replaces `base`; otherwise
/// a `/` is put between them unless `base` is empty or already ends in one.
pub open spec fn joined(base: Seq<char>, part: Seq<char>) -> Seq<char> {
    if part.len() > 0 && part[0] == '/' {
        part
    } else if base.len() == 0 {
        part
    } else if base.last() == '/' {
        base + part
    } else {
        base + seq!['/'] + part
    }
}

/// Joins `part` onto the directory `base`.
pub fn join_path(base: &str, part: &str) -> (r: String)
    ensures
        r@ == joined(base@, part@),
{
    let b = chars_of(base);
    let p = chars_of(part);
    if p.len() > 0 && p[0] == '/' {
        return string_of(p.as_slice());
    }
    if b.len() == 0 {
        return string_of(p.as_slice());
    }
    let mut out = b.clone();
    if b[b.len() - 1] != '/' {
        out.push('/');
    }
    extend_chars(&mut out, p.as_slice());
    proof {
        if b@.last() == '/' {
            assert(out@ == b@ + p@);
        } else {
            assert(out@ == b@ + seq!['/'] + p@);
        }
    }
    string_of(out.as_slice())
}

/// The characters after the last `/` of `p` (all of `p` when it has none).
pub open spec fn last_segment(p: Seq<char>) -> Seq<char>
    decreases p.len(),
{
    if p.len() == 0 {
        p
    } else if p.last() == '/' {
        Seq::empty()
    } else {
        last_segment(p.drop_last()).push(p.last())
    }
}

proof fn lemma_last_segment(p: Seq<char>)
    ensures
        last_segment(p).len() <= p.len(),
        last_segment(p) == p.subrange(p.len() - last_segment(p).len(), p.len() as int),
        last_segment(p).len() < p.len() ==> p[p.len() - last_segment(p).len() - 1] == '/',
        forall|i: int| 0 <= i < last_segment(p).len() ==> #[trigger] last_segment(p)[i] != '/',
    decreases p.len(),
{
    if p.len() > 0 && p.last() != '/' {
        lemma_last_segment(p.drop_last());
        let s = last_segment(p.drop_last());
        assert(last_segment(p) == s.push(p.last()));
        assert(last_segment(p) =~= p.subrange(p.len() - last_segment(p).len(), p.len() as int));
    }
}

/// The last component of a path, as `Path::file_name` gives it: trailing
/// `/` and `.` components are passed over; a last component `..`, or none
/// at all, gives nothing.
pub open spec fn file_name_of(p: Seq<char>) -> Option<Seq<char>>
    decreases p.len(),
{
    if p.len() == 0 {
        None
    } else if p.last() == '/' {
        file_name_of(p.drop_last())
    } else {
        let seg = last_segment(p);
        if seg == seq!['.'] {
            file_name_of(p.take(p.len() - 1))
        } else if seg == seq!['.', '.'] {
            None
        } else {
            Some(seg)
        }
    }
}

/// The last component of `path`, or `None` as `Path::file_name` gives it.
pub fn file_name(path: &str) -> (r: Option<String>)
    ensures
        match file_name_of(path@) {
            Some(n) => r matches Some(s) && s@ == n,
            None => r is None,
        },
{
    let c = chars_of(path);
    let mut end: usize = c.len();
    assert(c@.take(c@.len() as int) =~= c@);
    loop
        invariant
            c@ == path@,
            end <= c@.len(),
            file_name_of(c@.take(end as int)) == file_name_of(c@),
        decreases end,
    {
        if end == 0 {
            return None;
        }
        let ghost p = c@.take(end as int);
        assert(p.drop_last() =~= c@.take(end - 1));
        assert(p.last() == c@[end - 1]);
        if c[end - 1] == '/' {
            end = end - 1;
        } else {
            let mut start: usize = end;
            while start > 0 && c[start - 1] != '/'
                invariant
                    start <= end,
                    end <= c@.len(),
                    forall|i: int| start <= i < end ==> c@[i] != '/',
                decreases start,
            {
                start = start - 1;
            }
            proof {
                lemma_last_segment(p);
                let seg = c@.subrange(start as int, end as int);
                let n = last_segment(p).len();
                if n < end - start {
                    assert(p[p.len() - n - 1] == '/');
                    assert(c@[end - n - 1] == '/');
                }
                if n > end - start {
                    assert(start > 0 && c@[start - 1] == '/');
                    assert(last_segment(p)[n - (end - start) - 1] == p[start - 1]);
                }
                assert(n == end - start);
                assert(last_segment(p) =~= seg);
            }
            let len = end - start;
            if len == 1 && c[start] == '.' {
                proof {
                    assert(last_segment(p) =~= seq!['.']);
                    assert(p.take(p.len() - 1) =~= c@.take(end - 1));
                }
                end = end - 1;
            } else if len == 2 && c[start] == '.' && c[start + 1] == '.' {
                proof {
                    assert(last_segment(p) =~= seq!['.', '.']);
                }
                return None;
            } else {
                let mut seg: Vec<char> = Vec::new();
                let mut i: usize = start;
                while i < end
                    invariant
                        start <= i <= end,
                        end <= c@.len(),
                        seg@ == c@.subrange(start as int, i as int),
                    decreases end - i,
                {
                    seg.push(c[i]);
                    i = i + 1;
                    assert(seg@ =~= c@.subrange(start as int, i as int));
                }
                proof {
                    if len == 1 {
                        assert(last_segment(p) != seq!['.']) by {
                            assert(last_segment(p)[0] != '.');
                        }
                    }
                    if len == 2 {
                        assert(last_segment(p) != seq!['.', '.']) by {
                            assert(last_segment(p)[0] != '.' || last_segment(p)[1] != '.');
                        }
                    }
                    if len != 1 {
                        assert(last_segment(p).len() != seq!['.'].len());
                    }
                    if len != 2 {
                        assert(last_segment(p).len() != seq!['.', '.'].len());
                    }
                }
                return Some(string_of(seg.as_slice()));
            }
        }
    }
}

} // verus!
