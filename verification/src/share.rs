//! The files a user offers to friends (share entries) and the files of
//! others a user keeps a note of (bookmarks).  The lists are loaded and
//! saved by the caller; these functions say how each change rewrites them.
use vstd::prelude::*;
use crate::auth::id_list;
use crate::history::{TransferRecord, RecordView};
use crate::lists::{first_where, lemma_first_where, lemma_first_where_props, merged_tags, merge_tags};
use crate::paths::{joined, join_path};
use crate::text::str_equal;

verus! {

pub open spec fn opt_view(o: Option<String>) -> Option<Seq<char>> {
    match o {
        Some(s) => Some(s@),
        None => None,
    }
}

pub fn clone_opt(o: &Option<String>) -> (r: Option<String>)
    ensures
        r == *o,
{
    match o {
        Some(s) => Some(s.clone()),
        None => None,
    }
}

/// A copy of a list of strings.
pub fn clone_strings(v: &Vec<String>) -> (r: Vec<String>)
    ensures
        r@ == v@,
{
    let mut r: Vec<String> = Vec::new();
    let mut i: usize = 0;
    while i < v.len()
        invariant
            i <= v@.len(),
            r@ == v@.take(i as int),
        decreases v@.len() - i,
    {
        r.push(v[i].clone());
        i = i + 1;
        assert(r@ =~= v@.take(i as int));
    }
    assert(v@.take(v@.len() as int) =~= v@);
    r
}

/// A received file offered to friends.
#[derive(Debug)]
pub struct ShareEntry {
    pub record_id: String,
    pub file_name: String,
    pub file_size: u64,
    pub save_path: String,
    pub file_md5: Option<String>,
    pub tags: Vec<String>,
    pub remark: String,
    pub excluded: bool,
    pub download_count: u32,
    pub timestamp: u64,
}

/// A share entry with its text as character sequences.
pub struct ShareEntryView {
    pub record_id: Seq<char>,
    pub file_name: Seq<char>,
    pub file_size: u64,
    pub save_path: Seq<char>,
    pub file_md5: Option<Seq<char>>,
    pub tags: Seq<Seq<char>>,
    pub remark: Seq<char>,
    pub excluded: bool,
    pub download_count: u32,
    pub timestamp: u64,
}

impl View for ShareEntry {
    type V = ShareEntryView;

    open spec fn view(&self) -> ShareEntryView {
        ShareEntryView {
            record_id: self.record_id@,
            file_name: self.file_name@,
            file_size: self.file_size,
            save_path: self.save_path@,
            file_md5: opt_view(self.file_md5),
            tags: id_list(self.tags@),
            remark: self.remark@,
            excluded: self.excluded,
            download_count: self.download_count,
            timestamp: self.timestamp,
        }
    }
}

impl Clone for ShareEntry {
    fn clone(&self) -> (r: Self)
        ensures
            r@ == self@,
    {
        ShareEntry {
            record_id: self.record_id.clone(),
            file_name: self.file_name.clone(),
            file_size: self.file_size,
            save_path: self.save_path.clone(),
            file_md5: clone_opt(&self.file_md5),
            tags: clone_strings(&self.tags),
            remark: self.remark.clone(),
            excluded: self.excluded,
            download_count: self.download_count,
            timestamp: self.timestamp,
        }
    }
}

/// The views of a list of entries.
pub open spec fn entries_view(v: Seq<ShareEntry>) -> Seq<ShareEntryView> {
    v.map_values(|e: ShareEntry| e@)
}

/// Another entry that carries the digest `hash`.
pub open spec fn same_digest(record_id: Seq<char>, hash: Seq<char>) -> spec_fn(ShareEntryView) -> bool {
    |e: ShareEntryView| e.record_id != record_id && e.file_md5 == Some(hash)
}

/// The entry of record `record_id`.
pub open spec fn of_record(record_id: Seq<char>) -> spec_fn(ShareEntryView) -> bool {
    |e: ShareEntryView| e.record_id == record_id
}

/// `s` with the tags of entry `i` extended by `added`.
pub open spec fn with_tags_merged(s: Seq<ShareEntryView>, i: int, added: Seq<Seq<char>>) -> Seq<ShareEntryView> {
    s.update(i, ShareEntryView { tags: merged_tags(s[i].tags, added), ..s[i] })
}

/// The list after an entry is put in: when it carries a digest that another
/// entry already has, its tags go to that entry and nothing else changes;
/// otherwise it replaces the entry of the same record, or goes first.
pub open spec fn upserted(s: Seq<ShareEntryView>, entry: ShareEntryView) -> Seq<ShareEntryView> {
    let dup = match entry.file_md5 {
        Some(h) => first_where(s, same_digest(entry.record_id, h)),
        None => -1,
    };
    let same = first_where(s, of_record(entry.record_id));
    if dup >= 0 {
        with_tags_merged(s, dup, entry.tags)
    } else if same >= 0 {
        s.update(same, entry)
    } else {
        seq![entry] + s
    }
}

fn find_same_digest(entries: &Vec<ShareEntry>, record_id: &str, hash: &str) -> (r: Option<usize>)
    ensures
        match r {
            Some(i) => i < entries@.len() && i == first_where(entries_view(entries@), same_digest(record_id@, hash@)),
            None => first_where(entries_view(entries@), same_digest(record_id@, hash@)) == -1,
        },
{
    let ghost s = entries_view(entries@);
    let ghost p = same_digest(record_id@, hash@);
    let mut i: usize = 0;
    while i < entries.len()
        invariant
            i <= entries@.len(),
            s == entries_view(entries@),
            p == same_digest(record_id@, hash@),
            forall|k: int| 0 <= k < i ==> !p(#[trigger] s[k]),
        decreases entries@.len() - i,
    {
        let e = &entries[i];
        let same_hash = match &e.file_md5 {
            Some(h) => str_equal(h.as_str(), hash),
            None => false,
        };
        if !str_equal(e.record_id.as_str(), record_id) && same_hash {
            proof {
                assert(p(s[i as int]));
                lemma_first_where(s, p, i as int);
            }
            return Some(i);
        }
        assert(!p(s[i as int]));
        i = i + 1;
    }
    proof {
        lemma_first_where(s, p, i as int);
    }
    None
}

fn find_record(entries: &Vec<ShareEntry>, record_id: &str) -> (r: Option<usize>)
    ensures
        match r {
            Some(i) => i < entries@.len() && i == first_where(entries_view(entries@), of_record(record_id@)),
            None => first_where(entries_view(entries@), of_record(record_id@)) == -1,
        },
{
    let ghost s = entries_view(entries@);
    let ghost p = of_record(record_id@);
    let mut i: usize = 0;
    while i < entries.len()
        invariant
            i <= entries@.len(),
            s == entries_view(entries@),
            p == of_record(record_id@),
            forall|k: int| 0 <= k < i ==> !p(#[trigger] s[k]),
        decreases entries@.len() - i,
    {
        if str_equal(entries[i].record_id.as_str(), record_id) {
            proof {
                assert(p(s[i as int]));
                lemma_first_where(s, p, i as int);
            }
            return Some(i);
        }
        assert(!p(s[i as int]));
        i = i + 1;
    }
    proof {
        lemma_first_where(s, p, i as int);
    }
    None
}

/// Merges `added` into the tags of entry `i`.
fn merge_into(entries: &mut Vec<ShareEntry>, i: usize, added: &Vec<String>)
    requires
        i < old(entries)@.len(),
    ensures
        entries_view(final(entries)@) == with_tags_merged(entries_view(old(entries)@), i as int, id_list(added@)),
{
    let mut e = entries[i].clone();
    merge_tags(&mut e.tags, added);
    let ghost before = entries@;
    entries.set(i, e);
    assert(entries_view(entries@) =~= with_tags_merged(entries_view(before), i as int, id_list(added@)));
}

/// Applies `f` to the first entry of record `record_id`, if there is one.
pub open spec fn update_first(
    s: Seq<ShareEntryView>,
    record_id: Seq<char>,
    changed: ShareEntryView,
) -> Seq<ShareEntryView> {
    let i = first_where(s, of_record(record_id));
    if i >= 0 {
        s.update(i, changed)
    } else {
        s
    }
}

/// The path of the share list: `<data_dir>/share_entries.json`.
pub struct ShareStore {
    path: String,
}

impl ShareStore {
    pub closed spec fn path_view(&self) -> Seq<char> {
        self.path@
    }

    pub fn new(data_dir: &str) -> (s: ShareStore)
        ensures
            s.path_view() == joined(data_dir@, "share_entries.json"@),
    {
        ShareStore { path: join_path(data_dir, "share_entries.json") }
    }

    pub fn path(&self) -> (p: &str)
        ensures
            p@ == self.path_view(),
    {
        self.path.as_str()
    }

    /// Puts an entry in, merging duplicates by digest (see [`upserted`]).
    pub fn upsert_entry(entries: &mut Vec<ShareEntry>, entry: ShareEntry)
        ensures
            entries_view(final(entries)@) == upserted(entries_view(old(entries)@), entry@),
    {
        proof {
            lemma_first_where_props(entries_view(entries@), of_record(entry.record_id@));
        }
        if let Some(h) = &entry.file_md5 {
            if let Some(i) = find_same_digest(entries, entry.record_id.as_str(), h.as_str()) {
                proof {
                    lemma_first_where_props(entries_view(entries@), same_digest(entry.record_id@, h@));
                }
                merge_into(entries, i, &entry.tags);
                return;
            }
        }
        match find_record(entries, entry.record_id.as_str()) {
            Some(i) => {
                let ghost before = entries@;
                entries.set(i, entry);
                assert(entries_view(entries@) =~= entries_view(before).update(i as int, entry@));
            },
            None => {
                let ghost before = entries@;
                entries.insert(0, entry);
                assert(entries_view(entries@) =~= seq![entry@] + entries_view(before));
            },
        }
    }

    /// Marks the entry of `record_id` as excluded from sharing, or not.
    pub fn set_excluded(entries: &mut Vec<ShareEntry>, record_id: &str, excluded: bool)
        ensures
            ({
                let s = entries_view(old(entries)@);
                let i = first_where(s, of_record(record_id@));
                entries_view(final(entries)@) == update_first(
                    s,
                    record_id@,
                    ShareEntryView { excluded, ..s[i] },
                )
            }),
    {
        if let Some(i) = find_record(entries, record_id) {
            let mut e = entries[i].clone();
            e.excluded = excluded;
            let ghost before = entries@;
            entries.set(i, e);
            assert(entries_view(entries@) =~= entries_view(before).update(
                i as int,
                ShareEntryView { excluded, ..entries_view(before)[i as int] },
            ));
        }
    }

    /// Replaces the tags of the entry of `record_id`.
    pub fn update_tags(entries: &mut Vec<ShareEntry>, record_id: &str, tags: Vec<String>)
        ensures
            ({
                let s = entries_view(old(entries)@);
                let i = first_where(s, of_record(record_id@));
                entries_view(final(entries)@) == update_first(
                    s,
                    record_id@,
                    ShareEntryView { tags: id_list(tags@), ..s[i] },
                )
            }),
    {
        if let Some(i) = find_record(entries, record_id) {
            let mut e = entries[i].clone();
            let ghost t = id_list(tags@);
            e.tags = tags;
            let ghost before = entries@;
            entries.set(i, e);
            assert(entries_view(entries@) =~= entries_view(before).update(
                i as int,
                ShareEntryView { tags: t, ..entries_view(before)[i as int] },
            ));
        }
    }

    /// Replaces the remark of the entry of `record_id`.
    pub fn update_remark(entries: &mut Vec<ShareEntry>, record_id: &str, remark: String)
        ensures
            ({
                let s = entries_view(old(entries)@);
                let i = first_where(s, of_record(record_id@));
                entries_view(final(entries)@) == update_first(
                    s,
                    record_id@,
                    ShareEntryView { remark: remark@, ..s[i] },
                )
            }),
    {
        if let Some(i) = find_record(entries, record_id) {
            let mut e = entries[i].clone();
            let ghost r = remark@;
            e.remark = remark;
            let ghost before = entries@;
            entries.set(i, e);
            assert(entries_view(entries@) =~= entries_view(before).update(
                i as int,
                ShareEntryView { remark: r, ..entries_view(before)[i as int] },
            ));
        }
    }

    /// The entries offered to friends: those not excluded.
    pub fn get_shared_entries(entries: &Vec<ShareEntry>) -> (r: Vec<ShareEntry>)
        ensures
            entries_view(r@) == entries_view(entries@).filter(|e: ShareEntryView| !e.excluded),
    {
        let ghost keep = |e: ShareEntryView| !e.excluded;
        let mut r: Vec<ShareEntry> = Vec::new();
        let mut i: usize = 0;
        while i < entries.len()
            invariant
                i <= entries@.len(),
                keep == (|e: ShareEntryView| !e.excluded),
                entries_view(r@) == entries_view(entries@.take(i as int)).filter(keep),
            decreases entries@.len() - i,
        {
            let e = entries[i].clone();
            proof {
                assert(entries_view(entries@.take(i + 1)) =~= entries_view(entries@.take(i as int)).push(e@));
                entries_view(entries@.take(i as int)).lemma_filter_push(e@, keep);
            }
            if !e.excluded {
                let ghost before = r@;
                r.push(e);
                assert(entries_view(r@) =~= entries_view(before).push(entries[i as int]@));
            }
            i = i + 1;
        }
        assert(entries@.take(entries@.len() as int) =~= entries@);
        r
    }

    /// Counts one more download of the entry of `record_id` (stopping at the
    /// largest count).
    pub fn increment_download_count(entries: &mut Vec<ShareEntry>, record_id: &str)
        ensures
            ({
                let s = entries_view(old(entries)@);
                let i = first_where(s, of_record(record_id@));
                entries_view(final(entries)@) == update_first(
                    s,
                    record_id@,
                    ShareEntryView {
                        download_count: if s[i].download_count < u32::MAX {
                            (s[i].download_count + 1) as u32
                        } else {
                            u32::MAX
                        },
                        ..s[i]
                    },
                )
            }),
    {
        if let Some(i) = find_record(entries, record_id) {
            let mut e = entries[i].clone();
            e.download_count = e.download_count.saturating_add(1);
            let ghost before = entries@;
            let ghost c = e.download_count;
            entries.set(i, e);
            assert(entries_view(entries@) =~= entries_view(before).update(
                i as int,
                ShareEntryView { download_count: c, ..entries_view(before)[i as int] },
            ));
        }
    }

    /// Records the digest of the entry of `record_id`.  When another entry
    /// already has that digest, this entry's tags are merged into it and
    /// this duplicate is removed.
    pub fn update_md5(entries: &mut Vec<ShareEntry>, record_id: &str, hash: String)
        ensures
            ({
                let s = entries_view(old(entries)@);
                let own = first_where(s, of_record(record_id@));
                let dup = first_where(s, same_digest(record_id@, hash@));
                let tags = if own >= 0 {
                    s[own].tags
                } else {
                    Seq::<Seq<char>>::empty()
                };
                if dup >= 0 {
                    let merged = with_tags_merged(s, dup, tags);
                    entries_view(final(entries)@) == if own >= 0 {
                        merged.remove(own)
                    } else {
                        merged
                    }
                } else {
                    entries_view(final(entries)@) == update_first(
                        s,
                        record_id@,
                        ShareEntryView { file_md5: Some(hash@), ..s[own] },
                    )
                }
            }),
    {
        let ghost s = entries_view(entries@);
        let own = find_record(entries, record_id);
        let current_tags: Vec<String> = match own {
            Some(i) => clone_strings(&entries[i].tags),
            None => Vec::new(),
        };
        proof {
            lemma_first_where_props(s, of_record(record_id@));
            lemma_first_where_props(s, same_digest(record_id@, hash@));
        }
        match find_same_digest(entries, record_id, hash.as_str()) {
            Some(d) => {
                merge_into(entries, d, &current_tags);
                let ghost merged = entries_view(entries@);
                proof {
                    assert(first_where(merged, of_record(record_id@)) == first_where(s, of_record(record_id@))) by {
                        assert forall|k: int| 0 <= k < merged.len() implies #[trigger] of_record(record_id@)(merged[k])
                            == of_record(record_id@)(s[k]) by {
                            if k == d {
                                assert(merged[k].record_id == s[k].record_id);
                            }
                        }
                        lemma_first_where_props(merged, of_record(record_id@));
                        match own {
                            Some(i) => {
                                lemma_first_where(merged, of_record(record_id@), i as int);
                            },
                            None => {
                                lemma_first_where(merged, of_record(record_id@), merged.len() as int);
                            },
                        }
                    }
                }
                if let Some(i) = own {
                    let ghost before = entries@;
                    entries.remove(i);
                    assert(entries_view(entries@) =~= entries_view(before).remove(i as int));
                }
            },
            None => {
                if let Some(i) = own {
                    let mut e = entries[i].clone();
                    let ghost h = hash@;
                    e.file_md5 = Some(hash);
                    let ghost before = entries@;
                    entries.set(i, e);
                    assert(entries_view(entries@) =~= entries_view(before).update(
                        i as int,
                        ShareEntryView { file_md5: Some(h), ..entries_view(before)[i as int] },
                    ));
                }
            },
        }
    }

    /// Removes every entry of `record_id`.
    pub fn remove_entry(entries: &mut Vec<ShareEntry>, record_id: &str)
        ensures
            entries_view(final(entries)@) == entries_view(old(entries)@).filter(
                |e: ShareEntryView| e.record_id != record_id@,
            ),
    {
        let ghost keep = |e: ShareEntryView| e.record_id != record_id@;
        let mut r: Vec<ShareEntry> = Vec::new();
        let mut i: usize = 0;
        while i < entries.len()
            invariant
                i <= entries@.len(),
                keep == (|e: ShareEntryView| e.record_id != record_id@),
                entries_view(r@) == entries_view(entries@.take(i as int)).filter(keep),
            decreases entries@.len() - i,
        {
            let e = entries[i].clone();
            proof {
                assert(entries_view(entries@.take(i + 1)) =~= entries_view(entries@.take(i as int)).push(e@));
                entries_view(entries@.take(i as int)).lemma_filter_push(e@, keep);
            }
            if !str_equal(e.record_id.as_str(), record_id) {
                let ghost before = r@;
                r.push(e);
                assert(entries_view(r@) =~= entries_view(before).push(entries[i as int]@));
            }
            i = i + 1;
        }
        assert(entries@.take(entries@.len() as int) =~= entries@);
        *entries = r;
    }

    /// The list kept after comparing it with the transfer history: entries
    /// whose record is no longer a completed receive, or whose file is gone,
    /// are dropped; each completed receive with a saved file that has no
    /// entry yet gets one, tagged with this instance's name; the new entries
    /// come first, in history order.  `entry_exists[i]` tells whether the
    /// file of `entries[i]` exists, `record_exists[j]` whether the saved file
    /// of `records[j]` does.
    pub fn sync_from_history(
        entries: &Vec<ShareEntry>,
        entry_exists: &Vec<bool>,
        records: &Vec<TransferRecord>,
        record_exists: &Vec<bool>,
        instance_name: &str,
    ) -> (r: Vec<ShareEntry>)
        requires
            entry_exists@.len() == entries@.len(),
            record_exists@.len() == records@.len(),
        ensures
            ({
                let kept = kept_entries(entries_view(entries@), entry_exists@, records_view(records@));
                entries_view(r@) == new_entries(
                    records_view(records@),
                    record_exists@,
                    kept,
                    instance_name@,
                ) + kept
            }),
    {
        let ghost recs = records_view(records@);
        let mut kept: Vec<ShareEntry> = Vec::new();
        let mut i: usize = 0;
        while i < entries.len()
            invariant
                i <= entries@.len(),
                entry_exists@.len() == entries@.len(),
                recs == records_view(records@),
                entries_view(kept@) == kept_entries(
                    entries_view(entries@.take(i as int)),
                    entry_exists@.take(i as int),
                    recs,
                ),
            decreases entries@.len() - i,
        {
            let e = entries[i].clone();
            let valid = is_completed_receive_id(records, e.record_id.as_str());
            proof {
                assert(entries_view(entries@.take(i + 1)).drop_last() =~= entries_view(entries@.take(i as int)));
                assert(entry_exists@.take(i + 1).drop_last() =~= entry_exists@.take(i as int));
                assert(entries_view(entries@.take(i + 1)).last() == e@);
            }
            if valid && entry_exists[i] {
                let ghost before = kept@;
                kept.push(e);
                assert(entries_view(kept@) =~= entries_view(before).push(entries[i as int]@));
            }
            i = i + 1;
        }
        assert(entries@.take(entries@.len() as int) =~= entries@);
        assert(entry_exists@.take(entry_exists@.len() as int) =~= entry_exists@);
        let ghost kv = entries_view(kept@);
        let mut out: Vec<ShareEntry> = Vec::new();
        let mut j: usize = 0;
        while j < records.len()
            invariant
                j <= records@.len(),
                record_exists@.len() == records@.len(),
                recs == records_view(records@),
                kv == entries_view(kept@),
                entries_view(out@) == new_entries(
                    recs.take(j as int),
                    record_exists@.take(j as int),
                    kv,
                    instance_name@,
                ),
            decreases records@.len() - j,
        {
            let rec = &records[j];
            proof {
                assert(recs.take(j + 1).drop_last() =~= recs.take(j as int));
                assert(record_exists@.take(j + 1).drop_last() =~= record_exists@.take(j as int));
                assert(recs.take(j + 1).last() == rec@);
            }
            if str_equal(rec.direction.as_str(), "receive") && str_equal(rec.status.as_str(), "completed")
                && !has_entry_for(&kept, rec.id.as_str()) && record_exists[j] {
                if let Some(p) = &rec.save_path {
                    let ghost before = out@;
                    let mut tags: Vec<String> = Vec::new();
                    tags.push(instance_name.to_string());
                    assert(id_list(tags@) =~= seq![instance_name@]);
                    let ne = ShareEntry {
                            record_id: rec.id.clone(),
                            file_name: rec.file_name.clone(),
                            file_size: rec.file_size,
                            save_path: p.clone(),
                            file_md5: None,
                            tags,
                            remark: String::new(),
                            excluded: false,
                            download_count: 0,
                            timestamp: rec.timestamp,
                        };
                    assert(ne@ == entry_for_record(rec@, instance_name@));
                    out.push(ne);
                    assert(entries_view(out@) =~= entries_view(before).push(entry_for_record(rec@, instance_name@)));
                }
            }
            j = j + 1;
        }
        assert(recs.take(recs.len() as int) =~= recs);
        assert(record_exists@.take(record_exists@.len() as int) =~= record_exists@);
        let ghost ov = entries_view(out@);
        let mut k: usize = 0;
        while k < kept.len()
            invariant
                k <= kept@.len(),
                entries_view(out@) == ov + entries_view(kept@.take(k as int)),
            decreases kept@.len() - k,
        {
            let ghost before = out@;
            out.push(kept[k].clone());
            assert(entries_view(kept@.take(k + 1)) =~= entries_view(kept@.take(k as int)).push(kept@[k as int]@));
            assert(entries_view(out@) =~= entries_view(before).push(kept@[k as int]@));
            k = k + 1;
        }
        assert(kept@.take(kept@.len() as int) =~= kept@);
        out
    }
}

/// The history as viewed records.
pub open spec fn records_view(v: Seq<TransferRecord>) -> Seq<RecordView> {
    v.map_values(|r: TransferRecord| r@)
}

/// A completed receive.
pub open spec fn completed_receive(r: RecordView) -> bool {
    r.direction == "receive"@ && r.status == "completed"@
}

/// Whether `id` is the id of a completed receive in the history.
pub open spec fn valid_record_id(records: Seq<RecordView>, id: Seq<char>) -> bool {
    exists|j: int| 0 <= j < records.len() && completed_receive(records[j]) && #[trigger] records[j].id == id
}

fn is_completed_receive_id(records: &Vec<TransferRecord>, id: &str) -> (r: bool)
    ensures
        r == valid_record_id(records_view(records@), id@),
{
    let ghost recs = records_view(records@);
    let mut j: usize = 0;
    while j < records.len()
        invariant
            j <= records@.len(),
            recs == records_view(records@),
            forall|k: int| 0 <= k < j ==> !(completed_receive(recs[k]) && #[trigger] recs[k].id == id@),
        decreases records@.len() - j,
    {
        let rec = &records[j];
        if str_equal(rec.direction.as_str(), "receive") && str_equal(rec.status.as_str(), "completed")
            && str_equal(rec.id.as_str(), id) {
            assert(recs[j as int] == rec@);
            assert(completed_receive(recs[j as int]) && recs[j as int].id == id@);
            return true;
        }
        assert(recs[j as int] == rec@);
        j = j + 1;
    }
    false
}

fn has_entry_for(entries: &Vec<ShareEntry>, record_id: &str) -> (r: bool)
    ensures
        r == entries_view(entries@).map_values(|e: ShareEntryView| e.record_id).contains(record_id@),
{
    let ghost ids = entries_view(entries@).map_values(|e: ShareEntryView| e.record_id);
    let mut i: usize = 0;
    while i < entries.len()
        invariant
            i <= entries@.len(),
            ids == entries_view(entries@).map_values(|e: ShareEntryView| e.record_id),
            forall|k: int| 0 <= k < i ==> ids[k] != record_id@,
        decreases entries@.len() - i,
    {
        if str_equal(entries[i].record_id.as_str(), record_id) {
            assert(ids[i as int] == record_id@);
            return true;
        }
        i = i + 1;
    }
    false
}

/// The entries kept: those of a completed receive whose file exists.
pub open spec fn kept_entries(s: Seq<ShareEntryView>, exists_: Seq<bool>, records: Seq<RecordView>) -> Seq<ShareEntryView>
    decreases s.len(),
{
    if s.len() == 0 || exists_.len() == 0 {
        Seq::empty()
    } else {
        let rest = kept_entries(s.drop_last(), exists_.drop_last(), records);
        if valid_record_id(records, s.last().record_id) && exists_.last() {
            rest.push(s.last())
        } else {
            rest
        }
    }
}

/// The entry made for a completed receive.
pub open spec fn entry_for_record(r: RecordView, instance_name: Seq<char>) -> ShareEntryView {
    ShareEntryView {
        record_id: r.id,
        file_name: r.file_name,
        file_size: r.file_size,
        save_path: match r.save_path {
            Some(p) => p,
            None => Seq::empty(),
        },
        file_md5: None,
        tags: seq![instance_name],
        remark: Seq::empty(),
        excluded: false,
        download_count: 0,
        timestamp: r.timestamp,
    }
}

/// The entries added for the history `records`: one per completed receive
/// with a saved file that exists and whose id has no kept entry.
pub open spec fn new_entries(
    records: Seq<RecordView>,
    exists_: Seq<bool>,
    kept: Seq<ShareEntryView>,
    instance_name: Seq<char>,
) -> Seq<ShareEntryView>
    decreases records.len(),
{
    if records.len() == 0 || exists_.len() == 0 {
        Seq::empty()
    } else {
        let rest = new_entries(records.drop_last(), exists_.drop_last(), kept, instance_name);
        let r = records.last();
        if completed_receive(r) && !kept.map_values(|e: ShareEntryView| e.record_id).contains(r.id)
            && exists_.last() && r.save_path is Some {
            rest.push(entry_for_record(r, instance_name))
        } else {
            rest
        }
    }
}

/// Each entry that syncing adds describes a completed receive of the
/// history: it has that record's id, file name, file size, saved path and
/// time, is tagged with this instance's name only, and starts with no
/// digest, remark or downloads, and not excluded.
pub proof fn law_new_share_entries_describe_records(
    records: Seq<RecordView>,
    exists_: Seq<bool>,
    kept: Seq<ShareEntryView>,
    instance_name: Seq<char>,
)
    ensures
        forall|k: int| #![trigger new_entries(records, exists_, kept, instance_name)[k]]
            0 <= k < new_entries(records, exists_, kept, instance_name).len() ==> {
                let e = new_entries(records, exists_, kept, instance_name)[k];
                &&& exists|j: int|
                    0 <= j < records.len() && #[trigger] records[j].id == e.record_id && completed_receive(records[j])
                        && records[j].file_name == e.file_name && records[j].file_size == e.file_size
                        && records[j].save_path == Some(e.save_path) && records[j].timestamp == e.timestamp
                &&& e.tags == seq![instance_name]
                &&& e.file_md5 is None
                &&& e.remark.len() == 0
                &&& !e.excluded
                &&& e.download_count == 0
            },
    decreases records.len(),
{
    if records.len() > 0 && exists_.len() > 0 {
        let d = records.drop_last();
        law_new_share_entries_describe_records(d, exists_.drop_last(), kept, instance_name);
        let rest = new_entries(d, exists_.drop_last(), kept, instance_name);
        let n = new_entries(records, exists_, kept, instance_name);
        assert forall|k: int| #![trigger n[k]] 0 <= k < n.len() implies {
            let e = n[k];
            &&& exists|j: int|
                0 <= j < records.len() && #[trigger] records[j].id == e.record_id && completed_receive(records[j])
                    && records[j].file_name == e.file_name && records[j].file_size == e.file_size
                    && records[j].save_path == Some(e.save_path) && records[j].timestamp == e.timestamp
            &&& e.tags == seq![instance_name]
            &&& e.file_md5 is None
            &&& e.remark.len() == 0
            &&& !e.excluded
            &&& e.download_count == 0
        } by {
            if k < rest.len() {
                assert(n[k] == rest[k]);
                let e = rest[k];
                let j = choose|j: int|
                    0 <= j < d.len() && #[trigger] d[j].id == e.record_id && completed_receive(d[j])
                        && d[j].file_name == e.file_name && d[j].file_size == e.file_size
                        && d[j].save_path == Some(e.save_path) && d[j].timestamp == e.timestamp;
                assert(records[j] == d[j]);
            } else {
                let r = records.last();
                assert(records[records.len() - 1] == r);
            }
        }
    }
}

// ---------------------------------------------------------------------------
// Bookmarks.
// ---------------------------------------------------------------------------

/// A file of another instance that the user keeps a note of.
#[derive(Debug)]
pub struct BookmarkEntry {
    pub id: String,
    pub file_id: String,
    pub file_name: String,
    pub file_size: u64,
    pub file_md5: Option<String>,
    pub tags: Vec<String>,
    pub remark: String,
    pub source_instance_id: String,
    pub source_instance_name: String,
    pub source_transfer_addr: String,
    pub require_confirm: bool,
    pub bookmarked_at: u64,
}

/// A bookmark with its text as character sequences.
pub struct BookmarkView {
    pub id: Seq<char>,
    pub file_id: Seq<char>,
    pub file_name: Seq<char>,
    pub file_size: u64,
    pub file_md5: Option<Seq<char>>,
    pub tags: Seq<Seq<char>>,
    pub remark: Seq<char>,
    pub source_instance_id: Seq<char>,
    pub source_instance_name: Seq<char>,
    pub source_transfer_addr: Seq<char>,
    pub require_confirm: bool,
    pub bookmarked_at: u64,
}

impl View for BookmarkEntry {
    type V = BookmarkView;

    open spec fn view(&self) -> BookmarkView {
        BookmarkView {
            id: self.id@,
            file_id: self.file_id@,
            file_name: self.file_name@,
            file_size: self.file_size,
            file_md5: opt_view(self.file_md5),
            tags: id_list(self.tags@),
            remark: self.remark@,
            source_instance_id: self.source_instance_id@,
            source_instance_name: self.source_instance_name@,
            source_transfer_addr: self.source_transfer_addr@,
            require_confirm: self.require_confirm,
            bookmarked_at: self.bookmarked_at,
        }
    }
}

/// The views of a list of bookmarks.
pub open spec fn bookmarks_view(v: Seq<BookmarkEntry>) -> Seq<BookmarkView> {
    v.map_values(|b: BookmarkEntry| b@)
}

impl Clone for BookmarkEntry {
    fn clone(&self) -> (r: Self)
        ensures
            r@ == self@,
    {
        BookmarkEntry {
            id: self.id.clone(),
            file_id: self.file_id.clone(),
            file_name: self.file_name.clone(),
            file_size: self.file_size,
            file_md5: clone_opt(&self.file_md5),
            tags: clone_strings(&self.tags),
            remark: self.remark.clone(),
            source_instance_id: self.source_instance_id.clone(),
            source_instance_name: self.source_instance_name.clone(),
            source_transfer_addr: self.source_transfer_addr.clone(),
            require_confirm: self.require_confirm,
            bookmarked_at: self.bookmarked_at,
        }
    }
}

/// The path of the bookmark list: `<data_dir>/share_bookmarks.json`.
pub struct BookmarkStore {
    path: String,
}

impl BookmarkStore {
    pub closed spec fn path_view(&self) -> Seq<char> {
        self.path@
    }

    pub fn new(data_dir: &str) -> (s: BookmarkStore)
        ensures
            s.path_view() == joined(data_dir@, "share_bookmarks.json"@),
    {
        BookmarkStore { path: join_path(data_dir, "share_bookmarks.json") }
    }

    pub fn path(&self) -> (p: &str)
        ensures
            p@ == self.path_view(),
    {
        self.path.as_str()
    }

    /// Puts a bookmark first.
    pub fn add_bookmark(bookmarks: &mut Vec<BookmarkEntry>, entry: BookmarkEntry)
        ensures
            bookmarks_view(final(bookmarks)@) == seq![entry@] + bookmarks_view(old(bookmarks)@),
    {
        let ghost before = bookmarks@;
        let ghost ev = entry@;
        bookmarks.insert(0, entry);
        assert(bookmarks_view(bookmarks@) =~= seq![ev] + bookmarks_view(before));
    }

    /// Removes every bookmark with this id.
    pub fn remove_bookmark(bookmarks: &mut Vec<BookmarkEntry>, id: &str)
        ensures
            bookmarks_view(final(bookmarks)@) == bookmarks_view(old(bookmarks)@).filter(
                |b: BookmarkView| b.id != id@,
            ),
    {
        let ghost keep = |b: BookmarkView| b.id != id@;
        let ghost src = bookmarks@;
        let mut r: Vec<BookmarkEntry> = Vec::new();
        let mut i: usize = 0;
        while i < bookmarks.len()
            invariant
                i <= bookmarks@.len(),
                src == bookmarks@,
                keep == (|b: BookmarkView| b.id != id@),
                bookmarks_view(r@) == bookmarks_view(src.take(i as int)).filter(keep),
            decreases bookmarks@.len() - i,
        {
            let b = bookmarks[i].clone();
            proof {
                assert(bookmarks_view(src.take(i + 1)) =~= bookmarks_view(src.take(i as int)).push(b@));
                bookmarks_view(src.take(i as int)).lemma_filter_push(b@, keep);
            }
            if !str_equal(b.id.as_str(), id) {
                let ghost before = r@;
                r.push(b);
                assert(bookmarks_view(r@) =~= bookmarks_view(before).push(src[i as int]@));
            }
            i = i + 1;
        }
        assert(src.take(src.len() as int) =~= src);
        *bookmarks = r;
    }
}

} // verus!
