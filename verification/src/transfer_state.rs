//! The resumable state of a file being received: which chunks have arrived.
use vstd::prelude::*;
use std::collections::HashSet;
use crate::paths::{joined, join_path};
use crate::text::concat_str;

verus! {

/// The number of `chunk_size`-byte chunks a file of `file_size` bytes is cut
/// into (the last one may be shorter).
pub open spec fn chunk_count(file_size: u64, chunk_size: u32) -> int {
    (file_size + chunk_size - 1) / (chunk_size as int)
}

/// Whether a chunk count can be computed for these sizes without the
/// arithmetic overflowing.
pub open spec fn sizes_ok(file_size: u64, chunk_size: u32) -> bool {
    chunk_size > 0 && file_size + chunk_size <= u64::MAX
}

/// The number of chunks, truncated to 32 bits as the protocol carries it.
pub fn total_chunks_for(file_size: u64, chunk_size: u32) -> (n: u32)
    requires
        sizes_ok(file_size, chunk_size),
    ensures
        n == #[verifier::truncate] (chunk_count(file_size, chunk_size) as u32),
{
    #[verifier::truncate] (((file_size + chunk_size as u64 - 1) / chunk_size as u64) as u32)
}

pub struct TransferState {
    pub file_id: String,
    /// Where the finished file goes.
    pub file_path: String,
    pub file_size: u64,
    pub chunk_size: u32,
    pub total_chunks: u32,
    /// The indices of the chunks received so far.
    pub completed_chunks: HashSet<u32>,
    /// Where the file is assembled until it is complete.
    pub temp_file_path: String,
}

impl TransferState {
    /// Every recorded chunk index names a chunk of the file.
    pub open spec fn wf(&self) -> bool {
        forall|i: u32| #[trigger] self.completed_chunks@.contains(i) ==> i < self.total_chunks
    }

    /// A fresh state: no chunk received yet.
    pub fn new(
        file_id: String,
        file_path: String,
        file_size: u64,
        chunk_size: u32,
        temp_file_path: String,
    ) -> (s: TransferState)
        requires
            sizes_ok(file_size, chunk_size),
        ensures
            s.file_id == file_id,
            s.file_path == file_path,
            s.file_size == file_size,
            s.chunk_size == chunk_size,
            s.total_chunks == #[verifier::truncate] (chunk_count(file_size, chunk_size) as u32),
            s.completed_chunks@ == Set::<u32>::empty(),
            s.temp_file_path == temp_file_path,
            s.wf(),
    {
        let total_chunks = total_chunks_for(file_size, chunk_size);
        TransferState {
            file_id,
            file_path,
            file_size,
            chunk_size,
            total_chunks,
            completed_chunks: HashSet::new(),
            temp_file_path,
        }
    }

    /// Whether as many chunks were received as the file has.
    pub fn is_complete(&self) -> (r: bool)
        ensures
            r == (self.completed_chunks@.len() == self.total_chunks),
    {
        self.completed_chunks.len() == self.total_chunks as usize
    }

    /// The first chunk not yet received, or `total_chunks` when there is none:
    /// where a resumed transfer starts again.
    pub fn next_expected_chunk(&self) -> (r: u32)
        ensures
            r <= self.total_chunks,
            forall|i: u32| i < r ==> self.completed_chunks@.contains(i),
            r < self.total_chunks ==> !self.completed_chunks@.contains(r),
    {
        let mut i: u32 = 0;
        while i < self.total_chunks
            invariant
                i <= self.total_chunks,
                forall|k: u32| k < i ==> self.completed_chunks@.contains(k),
            decreases self.total_chunks - i,
        {
            if !self.completed_chunks.contains(&i) {
                return i;
            }
            i = i + 1;
        }
        i
    }

    /// Records that chunk `index` has arrived.
    pub fn mark_completed(&mut self, index: u32)
        requires
            old(self).wf(),
            index < old(self).total_chunks,
        ensures
            final(self).completed_chunks@ == old(self).completed_chunks@.insert(index),
            final(self).file_id == old(self).file_id,
            final(self).file_path == old(self).file_path,
            final(self).file_size == old(self).file_size,
            final(self).chunk_size == old(self).chunk_size,
            final(self).total_chunks == old(self).total_chunks,
            final(self).temp_file_path == old(self).temp_file_path,
            final(self).wf(),
    {
        self.completed_chunks.insert(index);
    }

    /// Where the state of transfer `file_id` is kept:
    /// `<data_dir>/transfers/<file_id>.json`.
    pub fn state_file_path(data_dir: &str, file_id: &str) -> (p: String)
        ensures
            p@ == joined(joined(data_dir@, "transfers"@), file_id@ + ".json"@),
    {
        let dir = join_path(data_dir, "transfers");
        let name = concat_str(file_id, ".json");
        join_path(dir.as_str(), name.as_str())
    }
}

/// The contents of a `HashSet` are finite: they are what its iterator yields.
pub proof fn lemma_hash_set_finite(s: &HashSet<u32>)
    ensures
        s@.finite(),
{
    broadcast use vstd::seq_lib::seq_to_set_is_finite;

    let r = vstd::std_specs::iter::IteratorSpec::remaining(&vstd::std_specs::hash::spec_hash_keys_iter(s));
    assert(r.unref().to_set() == s@);
}

/// A well-formed state is complete exactly when every chunk of the file has
/// been received.
pub proof fn law_complete_iff_every_chunk(s: TransferState)
    requires
        s.wf(),
    ensures
        (s.completed_chunks@.len() == s.total_chunks) <==> (forall|i: u32|
            i < s.total_chunks ==> s.completed_chunks@.contains(i)),
{
    let c = s.completed_chunks@;
    lemma_hash_set_finite(&s.completed_chunks);
    let ints = vstd::set_lib::set_int_range(0, s.total_chunks as int);
    vstd::set_lib::lemma_int_range(0, s.total_chunks as int);
    let m = |i: u32| i as int;
    assert(vstd::relations::injective_on(m, c));
    vstd::set_lib::lemma_map_size(c, c.map(m), m);
    assert(c.map(m).subset_of(ints));
    if c.len() == s.total_chunks {
        assert forall|i: u32| i < s.total_chunks implies c.contains(i) by {
            if !c.contains(i) {
                assert(c.map(m).subset_of(ints.remove(i as int)));
                vstd::set_lib::lemma_len_subset(c.map(m), ints.remove(i as int));
            }
        }
    }
    if forall|i: u32| i < s.total_chunks ==> c.contains(i) {
        assert forall|x: int| ints.contains(x) implies c.map(m).contains(x) by {
            let i = x as u32;
            assert(c.contains(i) && m(i) == x);
        }
        assert(c.map(m) =~= ints);
    }
}

} // verus!
