//! The progress of running transfers, keyed by transfer id, and the user's
//! pause and cancel requests.  Times are milliseconds of a monotonic clock
//! supplied by the caller; speeds and estimates (floating point) are worked
//! out by the caller from these counts.
use vstd::prelude::*;
use crate::auth::id_list;
use crate::lists::{first_where, lemma_first_where, lemma_first_where_props};
use crate::share::{opt_view, clone_opt};
use crate::text::{decimal, push_decimal, string_of, str_equal, chars_of};

verus! {

/// How a duration of `secs` seconds is shown: hours and minutes from an
/// hour up, minutes and seconds from a minute up, else seconds.
pub open spec fn duration_text(secs: nat) -> Seq<char> {
    if secs >= 3600 {
        decimal(secs / 3600) + "h "@ + decimal((secs % 3600) / 60) + "m"@
    } else if secs >= 60 {
        decimal(secs / 60) + "m "@ + decimal(secs % 60) + "s"@
    } else {
        decimal(secs) + "s"@
    }
}

/// A duration is shown by its parts: under a minute as seconds; under an
/// hour as the whole minutes and the seconds left over (below 60); from an
/// hour up as the whole hours and the minutes left over (below 60).  For
/// any split of `secs` into such parts, the text is made of them.
pub proof fn law_duration_text_shows_parts(secs: nat, h: nat, m: nat, r: nat)
    ensures
        secs < 60 ==> duration_text(secs) == decimal(secs) + "s"@,
        60 <= secs < 3600 && secs == 60 * m + r && r < 60 ==> duration_text(secs) == decimal(m) + "m "@
            + decimal(r) + "s"@,
        secs >= 3600 && secs == 3600 * h + 60 * m + r && m < 60 && r < 60 ==> duration_text(secs)
            == decimal(h) + "h "@ + decimal(m) + "m"@,
{
    if 60 <= secs < 3600 && secs == 60 * m + r && r < 60 {
        vstd::arithmetic::div_mod::lemma_fundamental_div_mod_converse(secs as int, 60, m as int, r as int);
    }
    if secs >= 3600 && secs == 3600 * h + 60 * m + r && m < 60 && r < 60 {
        vstd::arithmetic::div_mod::lemma_fundamental_div_mod_converse(
            secs as int,
            3600,
            h as int,
            (60 * m + r) as int,
        );
        vstd::arithmetic::div_mod::lemma_fundamental_div_mod_converse((60 * m + r) as int, 60, m as int, r as int);
    }
}

fn push_str(out: &mut Vec<char>, s: &str)
    ensures
        final(out)@ == old(out)@ + s@,
{
    let c = chars_of(s);
    crate::text::extend_chars(out, c.as_slice());
}

/// Shows a duration given in whole seconds.
pub fn format_duration(secs: u64) -> (s: String)
    ensures
        s@ == duration_text(secs as nat),
{
    let mut out: Vec<char> = Vec::new();
    if secs >= 3600 {
        push_decimal(&mut out, secs / 3600);
        push_str(&mut out, "h ");
        push_decimal(&mut out, (secs % 3600) / 60);
        push_str(&mut out, "m");
    } else if secs >= 60 {
        push_decimal(&mut out, secs / 60);
        push_str(&mut out, "m ");
        push_decimal(&mut out, secs % 60);
        push_str(&mut out, "s");
    } else {
        push_decimal(&mut out, secs);
        push_str(&mut out, "s");
    }
    assert(out@ =~= duration_text(secs as nat));
    string_of(out.as_slice())
}

/// The progress of one transfer.
#[derive(Debug)]
pub struct TransferProgress {
    pub file_id: String,
    pub file_name: String,
    pub total_size: u64,
    pub transferred: u64,
    pub total_chunks: u32,
    pub completed_chunks: u32,
    /// `send` or `receive`.
    pub direction: String,
    /// `queued`, `active`, `pending_confirm` or `error`.
    pub status: String,
    pub paused: bool,
    pub current_file: Option<String>,
    pub error: Option<String>,
    /// When the transfer (re)started, in monotonic milliseconds.
    pub start_ms: u64,
    /// When it last moved, in monotonic milliseconds.
    pub last_update_ms: u64,
}

pub struct ProgressView {
    pub file_id: Seq<char>,
    pub file_name: Seq<char>,
    pub total_size: u64,
    pub transferred: u64,
    pub total_chunks: u32,
    pub completed_chunks: u32,
    pub direction: Seq<char>,
    pub status: Seq<char>,
    pub paused: bool,
    pub current_file: Option<Seq<char>>,
    pub error: Option<Seq<char>>,
    pub start_ms: u64,
    pub last_update_ms: u64,
}

impl View for TransferProgress {
    type V = ProgressView;

    open spec fn view(&self) -> ProgressView {
        ProgressView {
            file_id: self.file_id@,
            file_name: self.file_name@,
            total_size: self.total_size,
            transferred: self.transferred,
            total_chunks: self.total_chunks,
            completed_chunks: self.completed_chunks,
            direction: self.direction@,
            status: self.status@,
            paused: self.paused,
            current_file: opt_view(self.current_file),
            error: opt_view(self.error),
            start_ms: self.start_ms,
            last_update_ms: self.last_update_ms,
        }
    }
}

impl Clone for TransferProgress {
    fn clone(&self) -> (r: Self)
        ensures
            r@ == self@,
    {
        TransferProgress {
            file_id: self.file_id.clone(),
            file_name: self.file_name.clone(),
            total_size: self.total_size,
            transferred: self.transferred,
            total_chunks: self.total_chunks,
            completed_chunks: self.completed_chunks,
            direction: self.direction.clone(),
            status: self.status.clone(),
            paused: self.paused,
            current_file: clone_opt(&self.current_file),
            error: clone_opt(&self.error),
            start_ms: self.start_ms,
            last_update_ms: self.last_update_ms,
        }
    }
}

/// A new transfer's progress: nothing moved yet, active, not paused.
pub open spec fn fresh_progress(
    file_id: Seq<char>,
    file_name: Seq<char>,
    total_size: u64,
    total_chunks: u32,
    direction: Seq<char>,
    now_ms: u64,
) -> ProgressView {
    ProgressView {
        file_id,
        file_name,
        total_size,
        transferred: 0,
        total_chunks,
        completed_chunks: 0,
        direction,
        status: "active"@,
        paused: false,
        current_file: None,
        error: None,
        start_ms: now_ms,
        last_update_ms: now_ms,
    }
}

impl TransferProgress {
    pub fn new(
        file_id: String,
        file_name: String,
        total_size: u64,
        total_chunks: u32,
        direction: String,
        now_ms: u64,
    ) -> (p: TransferProgress)
        ensures
            p@ == fresh_progress(file_id@, file_name@, total_size, total_chunks, direction@, now_ms),
    {
        TransferProgress {
            file_id,
            file_name,
            total_size,
            transferred: 0,
            total_chunks,
            completed_chunks: 0,
            direction,
            status: "active".to_string(),
            paused: false,
            current_file: None,
            error: None,
            start_ms: now_ms,
            last_update_ms: now_ms,
        }
    }

    /// Counts one more chunk of `chunk_size` bytes.
    pub fn update(&mut self, chunk_size: u64, now_ms: u64)
        requires
            old(self).transferred + chunk_size <= u64::MAX,
            old(self).completed_chunks < u32::MAX,
        ensures
            final(self)@ == (ProgressView {
                transferred: (old(self).transferred + chunk_size) as u64,
                completed_chunks: (old(self).completed_chunks + 1) as u32,
                last_update_ms: now_ms,
                ..old(self)@
            }),
    {
        self.transferred = self.transferred + chunk_size;
        self.completed_chunks = self.completed_chunks + 1;
        self.last_update_ms = now_ms;
    }
}

pub open spec fn progress_list(v: Seq<TransferProgress>) -> Seq<ProgressView> {
    v.map_values(|p: TransferProgress| p@)
}

pub open spec fn keyed(id: Seq<char>) -> spec_fn(ProgressView) -> bool {
    |p: ProgressView| p.file_id == id
}

/// No two entries share a transfer id.
pub open spec fn keys_unique(s: Seq<ProgressView>) -> bool {
    forall|i: int, j: int| 0 <= i < j < s.len() ==> (#[trigger] s[i]).file_id != (#[trigger] s[j]).file_id
}

/// The entries after `p` is put in under its id: it replaces the entry of
/// that id, or is added at the end.
pub open spec fn put(s: Seq<ProgressView>, p: ProgressView) -> Seq<ProgressView> {
    let i = first_where(s, keyed(p.file_id));
    if i >= 0 {
        s.update(i, p)
    } else {
        s.push(p)
    }
}

/// The entries with the entry of `id` changed to `changed`, if there is one.
pub open spec fn change(s: Seq<ProgressView>, id: Seq<char>, changed: ProgressView) -> Seq<ProgressView> {
    let i = first_where(s, keyed(id));
    if i >= 0 {
        s.update(i, changed)
    } else {
        s
    }
}

/// The entry of `id`.
pub open spec fn entry_of(s: Seq<ProgressView>, id: Seq<char>) -> ProgressView {
    s[first_where(s, keyed(id))]
}

/// Whether the entry at `i` is the receiving side of a transfer whose
/// sending side is also listed here, and so is left out of listings.
pub open spec fn shadowed(s: Seq<ProgressView>, p: ProgressView) -> bool {
    &&& p.file_id.len() >= 5
    &&& p.file_id.take(5) == "recv:"@
    &&& p.status != "pending_confirm"@
    &&& first_where(s, keyed(p.file_id.skip(5))) >= 0
}

/// Every transfer's progress, by transfer id.
pub struct ProgressTracker {
    entries: Vec<TransferProgress>,
}

impl ProgressTracker {
    pub closed spec fn entries_spec(&self) -> Seq<ProgressView> {
        progress_list(self.entries@)
    }

    #[verifier::type_invariant]
    closed spec fn inv(&self) -> bool {
        keys_unique(progress_list(self.entries@))
    }

    pub fn new() -> (t: ProgressTracker)
        ensures
            t.entries_spec() == Seq::<ProgressView>::empty(),
    {
        let t = ProgressTracker { entries: Vec::new() };
        assert(progress_list(t.entries@) =~= Seq::<ProgressView>::empty());
        t
    }

    fn find(&self, id: &str) -> (r: Option<usize>)
        ensures
            match r {
                Some(i) => i < self.entries@.len() && i == first_where(self.entries_spec(), keyed(id@)),
                None => first_where(self.entries_spec(), keyed(id@)) == -1,
            },
    {
        let ghost s = self.entries_spec();
        let ghost p = keyed(id@);
        let mut i: usize = 0;
        while i < self.entries.len()
            invariant
                i <= self.entries@.len(),
                s == self.entries_spec(),
                p == keyed(id@),
                forall|k: int| 0 <= k < i ==> !p(#[trigger] s[k]),
            decreases self.entries@.len() - i,
        {
            if str_equal(self.entries[i].file_id.as_str(), id) {
                proof {
                    assert(p(s[i as int]));
                    lemma_first_where(s, p, i as int);
                }
                return Some(i);
            }
            assert(!p(s[i as int]));
            i = i + 1;
        }
        proof {
            lemma_first_where(s, p, i as int);
        }
        None
    }

    fn put_entry(&mut self, p: TransferProgress)
        ensures
            final(self).entries_spec() == put(old(self).entries_spec(), p@),
    {
        proof {
            use_type_invariant(&*self);
        }
        let ghost s = self.entries_spec();
        let ghost pv = p@;
        match self.find(p.file_id.as_str()) {
            Some(i) => {
                let mut entries: Vec<TransferProgress> = Vec::new();
                std::mem::swap(&mut entries, &mut self.entries);
                entries.set(i, p);
                proof {
                    assert(progress_list(entries@) =~= s.update(i as int, pv));
                    lemma_first_where_props(s, keyed(pv.file_id));
                    assert forall|a: int, b: int| 0 <= a < b < entries@.len() implies (#[trigger] progress_list(
                        entries@,
                    )[a]).file_id != (#[trigger] progress_list(entries@)[b]).file_id by {
                        assert(s[a].file_id != s[b].file_id);
                    }
                }
                self.entries = entries;
            },
            None => {
                let mut entries: Vec<TransferProgress> = Vec::new();
                std::mem::swap(&mut entries, &mut self.entries);
                entries.push(p);
                proof {
                    assert(progress_list(entries@) =~= s.push(pv));
                    lemma_first_where_props(s, keyed(pv.file_id));
                    assert forall|a: int, b: int| 0 <= a < b < entries@.len() implies (#[trigger] progress_list(
                        entries@,
                    )[a]).file_id != (#[trigger] progress_list(entries@)[b]).file_id by {
                        if b < s.len() {
                            assert(s[a].file_id != s[b].file_id);
                        } else {
                            assert(!keyed(pv.file_id)(s[a]));
                        }
                    }
                }
                self.entries = entries;
            },
        }
    }

    fn change_at(&mut self, i: usize, p: TransferProgress)
        requires
            i < old(self).entries_spec().len(),
            p@.file_id == old(self).entries_spec()[i as int].file_id,
        ensures
            final(self).entries_spec() == old(self).entries_spec().update(i as int, p@),
    {
        proof {
            use_type_invariant(&*self);
        }
        let ghost s = self.entries_spec();
        let ghost pv = p@;
        let mut entries: Vec<TransferProgress> = Vec::new();
                std::mem::swap(&mut entries, &mut self.entries);
        entries.set(i, p);
        proof {
            assert(progress_list(entries@) =~= s.update(i as int, pv));
            assert forall|a: int, b: int| 0 <= a < b < entries@.len() implies (#[trigger] progress_list(
                entries@,
            )[a]).file_id != (#[trigger] progress_list(entries@)[b]).file_id by {
                assert(s[a].file_id != s[b].file_id);
            }
        }
        self.entries = entries;
    }

    /// Starts tracking an active transfer (replacing any entry of that id).
    pub fn start_transfer(
        &mut self,
        file_id: String,
        file_name: String,
        total_size: u64,
        total_chunks: u32,
        direction: String,
        now_ms: u64,
    )
        ensures
            final(self).entries_spec() == put(
                old(self).entries_spec(),
                fresh_progress(file_id@, file_name@, total_size, total_chunks, direction@, now_ms),
            ),
    {
        let p = TransferProgress::new(file_id, file_name, total_size, total_chunks, direction, now_ms);
        self.put_entry(p);
    }

    /// Starts tracking a transfer that waits for its turn.
    pub fn register_queued(
        &mut self,
        file_id: String,
        file_name: String,
        total_size: u64,
        total_chunks: u32,
        direction: String,
        now_ms: u64,
    )
        ensures
            final(self).entries_spec() == put(
                old(self).entries_spec(),
                ProgressView {
                    status: "queued"@,
                    ..fresh_progress(file_id@, file_name@, total_size, total_chunks, direction@, now_ms)
                },
            ),
    {
        let mut p = TransferProgress::new(file_id, file_name, total_size, total_chunks, direction, now_ms);
        p.status = "queued".to_string();
        self.put_entry(p);
    }

    /// Starts tracking an incoming transfer that waits for the user's answer.
    pub fn register_pending_confirm(
        &mut self,
        file_id: String,
        file_name: String,
        file_size: u64,
        now_ms: u64,
    )
        ensures
            final(self).entries_spec() == put(
                old(self).entries_spec(),
                ProgressView {
                    status: "pending_confirm"@,
                    ..fresh_progress(file_id@, file_name@, file_size, 0, "receive"@, now_ms)
                },
            ),
    {
        let mut p = TransferProgress::new(file_id, file_name, file_size, 0, "receive".to_string(), now_ms);
        p.status = "pending_confirm".to_string();
        self.put_entry(p);
    }

    /// Marks the transfer `id` active, its clock restarting now.
    pub fn set_active(&mut self, id: &str, now_ms: u64)
        ensures
            ({
                let s = old(self).entries_spec();
                final(self).entries_spec() == change(
                    s,
                    id@,
                    ProgressView { status: "active"@, start_ms: now_ms, last_update_ms: now_ms, ..entry_of(s, id@) },
                )
            }),
    {
        if let Some(i) = self.find(id) {
            let mut p = self.entries[i].clone();
            p.status = "active".to_string();
            p.start_ms = now_ms;
            p.last_update_ms = now_ms;
            self.change_at(i, p);
        }
    }

    /// Whether the counts of transfer `id`, if tracked, can take one more
    /// chunk of `chunk_size` bytes.
    pub open spec fn can_count(&self, id: Seq<char>, chunk_size: u64) -> bool {
        let s = self.entries_spec();
        let i = first_where(s, keyed(id));
        i >= 0 ==> s[i].transferred + chunk_size <= u64::MAX && s[i].completed_chunks < u32::MAX
    }

    /// Counts a chunk of `chunk_size` bytes of transfer `id`.
    pub fn update_progress(&mut self, id: &str, chunk_size: u64, now_ms: u64)
        requires
            old(self).can_count(id@, chunk_size),
        ensures
            ({
                let s = old(self).entries_spec();
                let e = entry_of(s, id@);
                final(self).entries_spec() == change(
                    s,
                    id@,
                    ProgressView {
                        transferred: (e.transferred + chunk_size) as u64,
                        completed_chunks: (e.completed_chunks + 1) as u32,
                        last_update_ms: now_ms,
                        ..e
                    },
                )
            }),
    {
        if let Some(i) = self.find(id) {
            let mut p = self.entries[i].clone();
            p.update(chunk_size, now_ms);
            self.change_at(i, p);
        }
    }

    /// Counts a chunk as [`ProgressTracker::update_progress`] does, unless a
    /// count would overflow, in which case nothing changes and `false` comes
    /// back.
    pub fn try_update_progress(&mut self, id: &str, chunk_size: u64, now_ms: u64) -> (ok: bool)
        ensures
            ok == old(self).can_count(id@, chunk_size),
            !ok ==> final(self).entries_spec() == old(self).entries_spec(),
            ok ==> ({
                let s = old(self).entries_spec();
                let e = entry_of(s, id@);
                final(self).entries_spec() == change(
                    s,
                    id@,
                    ProgressView {
                        transferred: (e.transferred + chunk_size) as u64,
                        completed_chunks: (e.completed_chunks + 1) as u32,
                        last_update_ms: now_ms,
                        ..e
                    },
                )
            }),
    {
        match self.find(id) {
            Some(i) => {
                let e = &self.entries[i];
                if e.transferred > u64::MAX - chunk_size || e.completed_chunks == u32::MAX {
                    return false;
                }
                self.update_progress(id, chunk_size, now_ms);
                true
            },
            None => true,
        }
    }

    /// A copy of the progress of transfer `id`.
    pub fn get_progress(&self, id: &str) -> (r: Option<TransferProgress>)
        ensures
            ({
                let s = self.entries_spec();
                if first_where(s, keyed(id@)) >= 0 {
                    r matches Some(p) && p@ == entry_of(s, id@)
                } else {
                    r is None
                }
            }),
    {
        match self.find(id) {
            Some(i) => Some(self.entries[i].clone()),
            None => None,
        }
    }

    /// Stops tracking transfer `id`.
    pub fn remove_progress(&mut self, id: &str)
        ensures
            final(self).entries_spec() == old(self).entries_spec().filter(|p: ProgressView| p.file_id != id@),
    {
        proof {
            use_type_invariant(&*self);
        }
        let ghost s = self.entries_spec();
        let ghost keep = |p: ProgressView| p.file_id != id@;
        let mut out: Vec<TransferProgress> = Vec::new();
        let mut i: usize = 0;
        while i < self.entries.len()
            invariant
                i <= self.entries@.len(),
                s == self.entries_spec(),
                keep == (|p: ProgressView| p.file_id != id@),
                progress_list(out@) == progress_list(self.entries@.take(i as int)).filter(keep),
            decreases self.entries@.len() - i,
        {
            let p = self.entries[i].clone();
            proof {
                assert(progress_list(self.entries@.take(i + 1)) =~= progress_list(self.entries@.take(i as int)).push(p@));
                progress_list(self.entries@.take(i as int)).lemma_filter_push(p@, keep);
            }
            if !str_equal(p.file_id.as_str(), id) {
                let ghost before = out@;
                out.push(p);
                assert(progress_list(out@) =~= progress_list(before).push(self.entries@[i as int]@));
            }
            i = i + 1;
        }
        assert(self.entries@.take(self.entries@.len() as int) =~= self.entries@);
        proof {
            lemma_filter_keeps_unique(s, keep);
        }
        self.entries = out;
    }

    /// Marks transfer `id` paused or not.
    pub fn set_paused(&mut self, id: &str, paused: bool)
        ensures
            ({
                let s = old(self).entries_spec();
                final(self).entries_spec() == change(s, id@, ProgressView { paused, ..entry_of(s, id@) })
            }),
    {
        if let Some(i) = self.find(id) {
            let mut p = self.entries[i].clone();
            p.paused = paused;
            self.change_at(i, p);
        }
    }

    /// Names the file a folder transfer is working on.
    pub fn set_current_file(&mut self, id: &str, current_file: String)
        ensures
            ({
                let s = old(self).entries_spec();
                final(self).entries_spec() == change(
                    s,
                    id@,
                    ProgressView { current_file: Some(current_file@), ..entry_of(s, id@) },
                )
            }),
    {
        if let Some(i) = self.find(id) {
            let mut p = self.entries[i].clone();
            p.current_file = Some(current_file);
            self.change_at(i, p);
        }
    }

    /// Marks transfer `id` failed with `error`.
    pub fn set_error(&mut self, id: &str, error: String)
        ensures
            ({
                let s = old(self).entries_spec();
                final(self).entries_spec() == change(
                    s,
                    id@,
                    ProgressView { status: "error"@, error: Some(error@), ..entry_of(s, id@) },
                )
            }),
    {
        if let Some(i) = self.find(id) {
            let mut p = self.entries[i].clone();
            p.status = "error".to_string();
            p.error = Some(error);
            self.change_at(i, p);
        }
    }

    /// Every transfer to show: all entries but the receiving sides whose
    /// sending side is tracked here too (see [`shadowed`]).
    pub fn list_all(&self) -> (r: Vec<TransferProgress>)
        ensures
            progress_list(r@) == self.entries_spec().filter(
                |p: ProgressView| !shadowed(self.entries_spec(), p),
            ),
    {
        let ghost s = self.entries_spec();
        let ghost keep = |p: ProgressView| !shadowed(s, p);
        let mut out: Vec<TransferProgress> = Vec::new();
        let mut i: usize = 0;
        while i < self.entries.len()
            invariant
                i <= self.entries@.len(),
                s == self.entries_spec(),
                keep == (|p: ProgressView| !shadowed(s, p)),
                progress_list(out@) == progress_list(self.entries@.take(i as int)).filter(keep),
            decreases self.entries@.len() - i,
        {
            let p = self.entries[i].clone();
            proof {
                assert(progress_list(self.entries@.take(i + 1)) =~= progress_list(self.entries@.take(i as int)).push(p@));
                progress_list(self.entries@.take(i as int)).lemma_filter_push(p@, keep);
            }
            let hide = self.is_shadowed(&p);
            if !hide {
                let ghost before = out@;
                out.push(p);
                assert(progress_list(out@) =~= progress_list(before).push(self.entries@[i as int]@));
            }
            i = i + 1;
        }
        assert(self.entries@.take(self.entries@.len() as int) =~= self.entries@);
        out
    }

    fn is_shadowed(&self, p: &TransferProgress) -> (r: bool)
        ensures
            r == shadowed(self.entries_spec(), p@),
    {
        let c = chars_of(p.file_id.as_str());
        if c.len() < 5 || !(c[0] == 'r' && c[1] == 'e' && c[2] == 'c' && c[3] == 'v' && c[4] == ':') {
            proof {
                if c@.len() >= 5 {
                    reveal_strlit("recv:");
                    if c@.take(5) == "recv:"@ {
                        assert(c@[0] == c@.take(5)[0]);
                        assert(c@[1] == c@.take(5)[1]);
                        assert(c@[2] == c@.take(5)[2]);
                        assert(c@[3] == c@.take(5)[3]);
                        assert(c@[4] == c@.take(5)[4]);
                    }
                }
            }
            return false;
        }
        proof {
            reveal_strlit("recv:");
            assert(c@.take(5) =~= "recv:"@);
        }
        if str_equal(p.status.as_str(), "pending_confirm") {
            return false;
        }
        let mut rest: Vec<char> = Vec::new();
        let mut k: usize = 5;
        while k < c.len()
            invariant
                5 <= k <= c@.len(),
                rest@ == c@.subrange(5, k as int),
            decreases c@.len() - k,
        {
            rest.push(c[k]);
            k = k + 1;
            assert(rest@ =~= c@.subrange(5, k as int));
        }
        assert(rest@ =~= c@.skip(5));
        let base = string_of(rest.as_slice());
        self.find(base.as_str()).is_some()
    }
}

proof fn lemma_filter_keeps_unique(s: Seq<ProgressView>, keep: spec_fn(ProgressView) -> bool)
    requires
        keys_unique(s),
    ensures
        keys_unique(s.filter(keep)),
    decreases s.len(),
{
    reveal(Seq::filter);
    if s.len() > 0 {
        lemma_filter_keeps_unique(s.drop_last(), keep);
        let f = s.drop_last().filter(keep);
        if keep(s.last()) {
            assert(s.filter(keep) == f.push(s.last()));
            assert forall|a: int, b: int| 0 <= a < b < f.len() + 1 implies (#[trigger] f.push(
                s.last(),
            )[a]).file_id != (#[trigger] f.push(s.last())[b]).file_id by {
                if b == f.len() {
                    s.drop_last().lemma_filter_contains_rev(keep, f[a]);
                    assert(f.contains(f[a]));
                    assert(s.drop_last().contains(f[a]));
                    let w = choose|w: int| 0 <= w < s.drop_last().len() && s.drop_last()[w] == f[a];
                    assert(s[w] == f[a]);
                    assert(s[w].file_id != s[s.len() - 1].file_id);
                }
            }
        }
    }
}

// ---------------------------------------------------------------------------
// Pausing and cancelling.
// ---------------------------------------------------------------------------

/// The transfers the user asked to cancel or to pause.
pub struct TransferControl {
    cancelled: Vec<String>,
    paused: Vec<String>,
}

impl TransferControl {
    pub closed spec fn cancelled_spec(&self) -> Set<Seq<char>> {
        id_list(self.cancelled@).to_set()
    }

    pub closed spec fn paused_spec(&self) -> Set<Seq<char>> {
        id_list(self.paused@).to_set()
    }

    pub fn new() -> (c: TransferControl)
        ensures
            c.cancelled_spec() == Set::<Seq<char>>::empty(),
            c.paused_spec() == Set::<Seq<char>>::empty(),
    {
        let c = TransferControl { cancelled: Vec::new(), paused: Vec::new() };
        assert(c.cancelled_spec() =~= Set::<Seq<char>>::empty());
        assert(c.paused_spec() =~= Set::<Seq<char>>::empty());
        c
    }

    pub fn is_cancelled(&self, id: &str) -> (r: bool)
        ensures
            r == self.cancelled_spec().contains(id@),
    {
        set_contains(&self.cancelled, id)
    }

    pub fn is_paused(&self, id: &str) -> (r: bool)
        ensures
            r == self.paused_spec().contains(id@),
    {
        set_contains(&self.paused, id)
    }

    /// Forgets a cancel request once the transfer has stopped.
    pub fn clear_cancelled(&mut self, id: &str)
        ensures
            final(self).cancelled_spec() == old(self).cancelled_spec().remove(id@),
            final(self).paused_spec() == old(self).paused_spec(),
    {
        set_remove(&mut self.cancelled, id);
    }

    /// Cancels transfer `id`: a failed transfer is simply forgotten by the
    /// tracker; any other is asked to stop.
    pub fn cancel_transfer(&mut self, tracker: &mut ProgressTracker, id: &str)
        ensures
            ({
                let s = old(tracker).entries_spec();
                let failed = first_where(s, keyed(id@)) >= 0 && entry_of(s, id@).status == "error"@;
                if failed {
                    &&& final(tracker).entries_spec() == s.filter(|p: ProgressView| p.file_id != id@)
                    &&& final(self).cancelled_spec() == old(self).cancelled_spec()
                } else {
                    &&& final(tracker).entries_spec() == s
                    &&& final(self).cancelled_spec() == old(self).cancelled_spec().insert(id@)
                }
            }),
            final(self).paused_spec() == old(self).paused_spec(),
    {
        let failed = match tracker.get_progress(id) {
            Some(p) => str_equal(p.status.as_str(), "error"),
            None => false,
        };
        if failed {
            tracker.remove_progress(id);
        } else {
            set_insert(&mut self.cancelled, id);
        }
    }

    /// Pauses transfer `id`.
    pub fn pause_transfer(&mut self, tracker: &mut ProgressTracker, id: &str)
        ensures
            final(self).paused_spec() == old(self).paused_spec().insert(id@),
            final(self).cancelled_spec() == old(self).cancelled_spec(),
            ({
                let s = old(tracker).entries_spec();
                final(tracker).entries_spec() == change(s, id@, ProgressView { paused: true, ..entry_of(s, id@) })
            }),
    {
        set_insert(&mut self.paused, id);
        tracker.set_paused(id, true);
    }

    /// Resumes transfer `id`.
    pub fn resume_transfer(&mut self, tracker: &mut ProgressTracker, id: &str)
        ensures
            final(self).paused_spec() == old(self).paused_spec().remove(id@),
            final(self).cancelled_spec() == old(self).cancelled_spec(),
            ({
                let s = old(tracker).entries_spec();
                final(tracker).entries_spec() == change(s, id@, ProgressView { paused: false, ..entry_of(s, id@) })
            }),
    {
        set_remove(&mut self.paused, id);
        tracker.set_paused(id, false);
    }

    /// Pauses every listed outgoing transfer that is running and not paused.
    pub fn pause_all(&mut self, tracker: &mut ProgressTracker)
        ensures
            ({
                let l = listed(old(tracker).entries_spec());
                &&& forall|id: Seq<char>| #[trigger] final(self).paused_spec().contains(id) <==> (
                old(self).paused_spec().contains(id) || asked_to_pause(l, l.len() as int, id))
                &&& final(tracker).entries_spec() == flagged(
                    old(tracker).entries_spec(),
                    |x: Seq<char>| asked_to_pause(l, l.len() as int, x),
                    true,
                )
            }),
            final(self).cancelled_spec() == old(self).cancelled_spec(),
    {
        proof {
            use_type_invariant(&*tracker);
        }
        let ghost s0 = tracker.entries_spec();
        let all = tracker.list_all();
        let ghost l = progress_list(all@);
        let ghost p0 = self.paused_spec();
        proof {
            assert(flagged(s0, |x: Seq<char>| asked_to_pause(l, 0, x), true) =~= s0);
        }
        let mut i: usize = 0;
        while i < all.len()
            invariant
                i <= all@.len(),
                l == progress_list(all@),
                l == listed(s0),
                s0 == old(tracker).entries_spec(),
                keys_unique(s0),
                self.cancelled_spec() == old(self).cancelled_spec(),
                p0 == old(self).paused_spec(),
                forall|id: Seq<char>| #[trigger] self.paused_spec().contains(id) <==> (p0.contains(id)
                    || asked_to_pause(l, i as int, id)),
                tracker.entries_spec() == flagged(s0, |x: Seq<char>| asked_to_pause(l, i as int, x), true),
            decreases all@.len() - i,
        {
            let p = &all[i];
            let ghost id = l[i as int].file_id;
            proof {
                assert(id == p@.file_id);
            }
            if str_equal(p.direction.as_str(), "send") && str_equal(p.status.as_str(), "active") && !p.paused {
                proof {
                    assert(to_pause(l[i as int]));
                    lemma_flag_step(s0, |x: Seq<char>| asked_to_pause(l, i as int, x), id, true);
                    assert forall|x: Seq<char>| #![auto] asked_to_pause(l, i + 1, x) == (asked_to_pause(l, i as int, x) || x == id) by {
                        if x == id {
                            assert(0 <= i < i + 1 && to_pause(l[i as int]) && l[i as int].file_id == x);
                        }
                        if asked_to_pause(l, i + 1, x) && !(x == id) {
                            let k = choose|k: int| 0 <= k < i + 1 && to_pause(#[trigger] l[k]) && l[k].file_id == x;
                            assert(k < i);
                        }
                    }
                    assert((|x: Seq<char>| asked_to_pause(l, i + 1, x)) =~= (|x: Seq<char>| asked_to_pause(l, i as int, x) || x == id));
                }
                self.pause_transfer(tracker, p.file_id.as_str());
            } else {
                proof {
                    assert(!to_pause(l[i as int]));
                    assert forall|x: Seq<char>| #![auto] asked_to_pause(l, i + 1, x) == asked_to_pause(l, i as int, x) by {
                        if asked_to_pause(l, i + 1, x) {
                            let k = choose|k: int| 0 <= k < i + 1 && to_pause(#[trigger] l[k]) && l[k].file_id == x;
                            assert(k < i);
                        }
                    }
                    assert((|x: Seq<char>| asked_to_pause(l, i + 1, x)) =~= (|x: Seq<char>| asked_to_pause(l, i as int, x)));
                }
            }
            i = i + 1;
        }
    }

    /// Resumes every listed transfer that is paused.
    pub fn resume_all(&mut self, tracker: &mut ProgressTracker)
        ensures
            ({
                let l = listed(old(tracker).entries_spec());
                &&& forall|id: Seq<char>| #[trigger] final(self).paused_spec().contains(id) <==> (
                old(self).paused_spec().contains(id) && !asked_to_resume(l, l.len() as int, id))
                &&& final(tracker).entries_spec() == flagged(
                    old(tracker).entries_spec(),
                    |x: Seq<char>| asked_to_resume(l, l.len() as int, x),
                    false,
                )
            }),
            final(self).cancelled_spec() == old(self).cancelled_spec(),
    {
        proof {
            use_type_invariant(&*tracker);
        }
        let ghost s0 = tracker.entries_spec();
        let all = tracker.list_all();
        let ghost l = progress_list(all@);
        let ghost p0 = self.paused_spec();
        proof {
            assert(flagged(s0, |x: Seq<char>| asked_to_resume(l, 0, x), false) =~= s0);
        }
        let mut i: usize = 0;
        while i < all.len()
            invariant
                i <= all@.len(),
                l == progress_list(all@),
                l == listed(s0),
                s0 == old(tracker).entries_spec(),
                keys_unique(s0),
                self.cancelled_spec() == old(self).cancelled_spec(),
                p0 == old(self).paused_spec(),
                forall|id: Seq<char>| #[trigger] self.paused_spec().contains(id) <==> (p0.contains(id)
                    && !asked_to_resume(l, i as int, id)),
                tracker.entries_spec() == flagged(s0, |x: Seq<char>| asked_to_resume(l, i as int, x), false),
            decreases all@.len() - i,
        {
            let p = &all[i];
            let ghost id = l[i as int].file_id;
            proof {
                assert(id == p@.file_id);
            }
            if p.paused {
                proof {
                    assert(l[i as int].paused);
                    lemma_flag_step(s0, |x: Seq<char>| asked_to_resume(l, i as int, x), id, false);
                    assert forall|x: Seq<char>| #![auto] asked_to_resume(l, i + 1, x) == (asked_to_resume(l, i as int, x) || x == id) by {
                        if x == id {
                            assert(0 <= i < i + 1 && l[i as int].paused && l[i as int].file_id == x);
                        }
                        if asked_to_resume(l, i + 1, x) && !(x == id) {
                            let k = choose|k: int| 0 <= k < i + 1 && #[trigger] l[k].paused && l[k].file_id == x;
                            assert(k < i);
                        }
                    }
                    assert((|x: Seq<char>| asked_to_resume(l, i + 1, x)) =~= (|x: Seq<char>| asked_to_resume(l, i as int, x) || x == id));
                }
                self.resume_transfer(tracker, p.file_id.as_str());
            } else {
                proof {
                    assert(!l[i as int].paused);
                    assert forall|x: Seq<char>| #![auto] asked_to_resume(l, i + 1, x) == asked_to_resume(l, i as int, x) by {
                        if asked_to_resume(l, i + 1, x) {
                            let k = choose|k: int| 0 <= k < i + 1 && #[trigger] l[k].paused && l[k].file_id == x;
                            assert(k < i);
                        }
                    }
                    assert((|x: Seq<char>| asked_to_resume(l, i + 1, x)) =~= (|x: Seq<char>| asked_to_resume(l, i as int, x)));
                }
            }
            i = i + 1;
        }
    }
}

/// The transfers a listing shows.
pub open spec fn listed(s: Seq<ProgressView>) -> Seq<ProgressView> {
    s.filter(|p: ProgressView| !shadowed(s, p))
}

/// A running, unpaused outgoing transfer, which `pause_all` pauses.
pub open spec fn to_pause(p: ProgressView) -> bool {
    p.direction == "send"@ && p.status == "active"@ && !p.paused
}

/// Whether one of the first `n` listed transfers `l` is one `pause_all`
/// pauses and has the id `id`.
pub open spec fn asked_to_pause(l: Seq<ProgressView>, n: int, id: Seq<char>) -> bool {
    exists|k: int| 0 <= k < n && to_pause(#[trigger] l[k]) && l[k].file_id == id
}

/// Whether one of the first `n` listed transfers `l` is paused and has the
/// id `id`.
pub open spec fn asked_to_resume(l: Seq<ProgressView>, n: int, id: Seq<char>) -> bool {
    exists|k: int| 0 <= k < n && #[trigger] l[k].paused && l[k].file_id == id
}

/// The entries `s0` with the paused flag set to `flag` on those whose id
/// `marked` holds of.
pub open spec fn flagged(s0: Seq<ProgressView>, marked: spec_fn(Seq<char>) -> bool, flag: bool) -> Seq<
    ProgressView,
> {
    s0.map_values(
        |p: ProgressView|
            if marked(p.file_id) {
                ProgressView { paused: flag, ..p }
            } else {
                p
            },
    )
}

proof fn lemma_flag_step(
    s0: Seq<ProgressView>,
    marked: spec_fn(Seq<char>) -> bool,
    id: Seq<char>,
    flag: bool,
)
    requires
        keys_unique(s0),
    ensures
        ({
            let s = flagged(s0, marked, flag);
            change(s, id, ProgressView { paused: flag, ..entry_of(s, id) }) == flagged(
                s0,
                |x: Seq<char>| marked(x) || x == id,
                flag,
            )
        }),
{
    let s = flagged(s0, marked, flag);
    let after = |x: Seq<char>| marked(x) || x == id;
    let t = change(s, id, ProgressView { paused: flag, ..entry_of(s, id) });
    let goal = flagged(s0, after, flag);
    lemma_first_where_props(s, keyed(id));
    let i0 = first_where(s, keyed(id));
    assert forall|j: int| 0 <= j < s0.len() implies #[trigger] t[j] == goal[j] by {
        assert(s[j].file_id == s0[j].file_id);
        if i0 >= 0 && j == i0 {
        } else if s0[j].file_id == id {
            assert(keyed(id)(s[j]));
            assert(i0 >= 0 && i0 < j);
            assert(s[i0].file_id == s0[i0].file_id);
            assert(false);
        }
    }
    assert(t =~= goal);
}

fn set_contains(v: &Vec<String>, id: &str) -> (r: bool)
    ensures
        r == id_list(v@).to_set().contains(id@),
{
    let ghost ids = id_list(v@);
    let mut i: usize = 0;
    while i < v.len()
        invariant
            i <= v@.len(),
            ids == id_list(v@),
            forall|k: int| 0 <= k < i ==> ids[k] != id@,
        decreases v@.len() - i,
    {
        if str_equal(v[i].as_str(), id) {
            assert(ids[i as int] == id@);
            assert(ids.contains(id@));
            return true;
        }
        i = i + 1;
    }
    false
}

fn set_insert(v: &mut Vec<String>, id: &str)
    ensures
        id_list(final(v)@).to_set() == id_list(old(v)@).to_set().insert(
            id@,
        ),
{
    if !set_contains(v, id) {
        let ghost before = v@;
        v.push(id.to_string());
        assert(id_list(v@) =~= id_list(before).push(id@));
        assert(id_list(v@).to_set() =~= id_list(before).to_set().insert(id@)) by {
            let a = id_list(before);
            assert forall|x: Seq<char>| a.push(id@).contains(x) <==> a.contains(x) || x == id@ by {
                if a.push(id@).contains(x) {
                    let k = choose|k: int| 0 <= k < a.len() + 1 && a.push(id@)[k] == x;
                    if k < a.len() {
                        assert(a[k] == x);
                    }
                }
                if a.contains(x) {
                    let k = choose|k: int| 0 <= k < a.len() && a[k] == x;
                    assert(a.push(id@)[k] == x);
                }
                if x == id@ {
                    assert(a.push(id@)[a.len() as int] == x);
                }
            }
        }
    } else {
        assert(id_list(v@).to_set() =~= id_list(old(v)@).to_set().insert(id@));
    }
}

fn set_remove(v: &mut Vec<String>, id: &str)
    ensures
        id_list(final(v)@).to_set() == id_list(old(v)@).to_set().remove(
            id@,
        ),
{
    let ghost src = id_list(v@);
    let mut out: Vec<String> = Vec::new();
    let mut i: usize = 0;
    while i < v.len()
        invariant
            i <= v@.len(),
            src == id_list(v@),
            forall|x: Seq<char>| #[trigger] id_list(out@).contains(x) <==> (x != id@
                && src.take(i as int).contains(x)),
        decreases v@.len() - i,
    {
        let ghost before = out@;
        if !str_equal(v[i].as_str(), id) {
            out.push(v[i].clone());
        }
        proof {
            let a = id_list(before);
            let b = id_list(out@);
            assert forall|x: Seq<char>| #[trigger] b.contains(x) <==> (x != id@ && src.take(i + 1).contains(x)) by {
                assert(src.take(i + 1) =~= src.take(i as int).push(src[i as int]));
                if b.contains(x) {
                    let k = choose|k: int| 0 <= k < b.len() && b[k] == x;
                    if k < a.len() {
                        assert(a[k] == x);
                        assert(a.contains(x));
                    } else {
                        assert(x == src[i as int]);
                        assert(src.take(i + 1)[i as int] == x);
                    }
                }
                if x != id@ && src.take(i + 1).contains(x) {
                    let k = choose|k: int| 0 <= k < i + 1 && #[trigger] src.take(i + 1)[k] == x;
                    if k < i {
                        assert(src.take(i as int)[k] == x);
                        assert(a.contains(x));
                        let w = choose|w: int| 0 <= w < a.len() && a[w] == x;
                        assert(b[w] == x);
                    } else {
                        assert(b[b.len() - 1] == x);
                    }
                }
            }
        }
        i = i + 1;
    }
    proof {
        assert(src.take(src.len() as int) =~= src);
        assert(id_list(out@).to_set() =~= src.to_set().remove(id@));
    }
    *v = out;
}

} // verus!
