//! Small facts about finding the first element of a sequence with a
//! property, and the list of tags kept without repeats.
use vstd::prelude::*;
use crate::auth::id_list;

verus! {

/// The index of the first element of `s` satisfying `p`, or -1.
pub open spec fn first_where<A>(s: Seq<A>, p: spec_fn(A) -> bool) -> int
    decreases s.len(),
{
    if s.len() == 0 {
        -1
    } else if p(s[0]) {
        0
    } else {
        let r = first_where(s.drop_first(), p);
        if r < 0 {
            -1
        } else {
            r + 1
        }
    }
}

/// When the first `i` elements fail `p`, the first that satisfies it is at
/// `i` if `s[i]` does, and there is none if `i` is the end.
pub proof fn lemma_first_where<A>(s: Seq<A>, p: spec_fn(A) -> bool, i: int)
    requires
        0 <= i <= s.len(),
        forall|k: int| 0 <= k < i ==> !p(#[trigger] s[k]),
    ensures
        i < s.len() && p(s[i]) ==> first_where(s, p) == i,
        i == s.len() ==> first_where(s, p) == -1,
    decreases i,
{
    if i > 0 {
        assert forall|k: int| 0 <= k < i - 1 implies !p(#[trigger] s.drop_first()[k]) by {
            assert(s.drop_first()[k] == s[k + 1]);
        }
        lemma_first_where(s.drop_first(), p, i - 1);
    }
}

/// `first_where` is -1 or an index that satisfies `p`, with none before it.
pub proof fn lemma_first_where_props<A>(s: Seq<A>, p: spec_fn(A) -> bool)
    ensures
        -1 <= first_where(s, p) < s.len(),
        first_where(s, p) >= 0 ==> p(s[first_where(s, p)]),
        forall|k: int| 0 <= k < first_where(s, p) ==> !p(#[trigger] s[k]),
        first_where(s, p) == -1 ==> forall|k: int| 0 <= k < s.len() ==> !p(#[trigger] s[k]),
    decreases s.len(),
{
    if s.len() > 0 && !p(s[0]) {
        lemma_first_where_props(s.drop_first(), p);
        assert forall|k: int| 0 <= k < first_where(s, p) implies !p(#[trigger] s[k]) by {
            if k > 0 {
                assert(s[k] == s.drop_first()[k - 1]);
            }
        }
        if first_where(s.drop_first(), p) == -1 {
            assert forall|k: int| 0 <= k < s.len() implies !p(#[trigger] s[k]) by {
                if k > 0 {
                    assert(s[k] == s.drop_first()[k - 1]);
                }
            }
        }
    }
}

/// `existing` with each tag of `added` appended, in order, unless it is
/// already there.
pub open spec fn merged_tags(existing: Seq<Seq<char>>, added: Seq<Seq<char>>) -> Seq<Seq<char>>
    decreases added.len(),
{
    if added.len() == 0 {
        existing
    } else {
        let m = merged_tags(existing, added.drop_last());
        if m.contains(added.last()) {
            m
        } else {
            m.push(added.last())
        }
    }
}

/// Appends to `tags` each tag of `added` it does not hold yet.
pub fn merge_tags(tags: &mut Vec<String>, added: &Vec<String>)
    ensures
        id_list(final(tags)@) == merged_tags(id_list(old(tags)@), id_list(added@)),
{
    let ghost start = id_list(tags@);
    let mut i: usize = 0;
    while i < added.len()
        invariant
            i <= added@.len(),
            id_list(tags@) == merged_tags(start, id_list(added@).take(i as int)),
        decreases added@.len() - i,
    {
        let t = &added[i];
        let mut found = false;
        let mut j: usize = 0;
        while j < tags.len()
            invariant_except_break
                !found,
            invariant
                j <= tags@.len(),
                forall|k: int| 0 <= k < j ==> tags@[k]@ != t@,
            ensures
                found <==> id_list(tags@).contains(t@),
            decreases tags@.len() - j,
        {
            if crate::text::str_equal(tags[j].as_str(), t.as_str()) {
                found = true;
                assert(id_list(tags@)[j as int] == t@);
                break;
            }
            j = j + 1;
        }
        proof {
            let pre = id_list(added@).take(i as int);
            let now = id_list(added@).take(i + 1);
            assert(now.drop_last() =~= pre);
            assert(now.last() == t@);
        }
        if !found {
            let ghost before = tags@;
            tags.push(t.clone());
            proof {
                assert(id_list(tags@) =~= id_list(before).push(t@));
            }
        }
        i = i + 1;
    }
    assert(id_list(added@).take(added@.len() as int) =~= id_list(added@));
}

} // verus!
