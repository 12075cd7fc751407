//! Chat history, one conversation per peer.  A conversation is kept as
//! JSON lines (one message per line); an older format kept it as one JSON
//! array.  Messages get a per-conversation sequence number when they are
//! stored, and a count index remembers how many each conversation holds.
//! The files are read and written by the caller; these functions decide
//! names, numbers and what is read back.
use vstd::prelude::*;
use crate::paths::{joined, join_path, file_name_of};
use crate::share::{opt_view, clone_opt};
use crate::lists::{first_where, lemma_first_where, lemma_first_where_props};
use crate::protocol::{Message, TextMessage, TextAck};
use crate::config::{generate_instance_id, hyphenated_uuid};
use crate::text::{
    chars_of, string_of, concat_str, nonblank_lines, record_lines, count_nonblank_lines, str_equal, trim, field_scan,
    lemma_field_scan_extend,
};

verus! {

/// A chat message.
#[derive(Debug)]
pub struct ChatMessage {
    pub id: String,
    pub from_instance_id: String,
    pub from_instance_name: String,
    pub content: String,
    /// Milliseconds (or, for relayed messages, the sender's clock) since the
    /// Unix epoch.
    pub timestamp: u64,
    /// The message's number in its conversation, from 1; 0 when not given yet.
    pub local_seq: u64,
    pub is_self: bool,
}

impl Clone for ChatMessage {
    fn clone(&self) -> (r: Self)
        ensures
            r == *self,
    {
        ChatMessage {
            id: self.id.clone(),
            from_instance_id: self.from_instance_id.clone(),
            from_instance_name: self.from_instance_name.clone(),
            content: self.content.clone(),
            timestamp: self.timestamp,
            local_seq: self.local_seq,
            is_self: self.is_self,
        }
    }
}

/// The messages of a conversation read from a byte offset on.
#[derive(Debug)]
pub struct ConversationDelta {
    pub messages: Vec<ChatMessage>,
    /// Where the next read starts: the length of the file as it was read.
    pub next_cursor: u64,
    /// Whether the reader's cursor lay past the end of the file, so that the
    /// whole conversation was read again.
    pub reset: bool,
}

/// Messages read back in order get their position (from 1) as their number
/// when they have none.
pub open spec fn normalized(s: Seq<ChatMessage>) -> Seq<ChatMessage> {
    Seq::new(
        s.len(),
        |i: int|
            if s[i].local_seq == 0 {
                ChatMessage { local_seq: (i + 1) as u64, ..s[i] }
            } else {
                s[i]
            },
    )
}

/// Numbers the messages of a conversation that have no number yet by their
/// position.
pub fn normalize_messages(messages: Vec<ChatMessage>) -> (r: Vec<ChatMessage>)
    requires
        messages@.len() < u64::MAX,
    ensures
        r@ == normalized(messages@),
{
    let mut r: Vec<ChatMessage> = Vec::new();
    let mut i: usize = 0;
    while i < messages.len()
        invariant
            i <= messages@.len(),
            messages@.len() < u64::MAX,
            r@ == normalized(messages@).take(i as int),
        decreases messages@.len() - i,
    {
        let mut m = messages[i].clone();
        if m.local_seq == 0 {
            m.local_seq = (i + 1) as u64;
        }
        r.push(m);
        i = i + 1;
        assert(r@ =~= normalized(messages@).take(i as int));
    }
    assert(normalized(messages@).take(messages@.len() as int) =~= normalized(messages@));
    r
}

/// A message as it is stored when `count` messages are already in its
/// conversation: one without a number gets `count + 1`.
pub open spec fn numbered(m: ChatMessage, count: u64) -> ChatMessage {
    if m.local_seq == 0 {
        ChatMessage { local_seq: (count + 1) as u64, ..m }
    } else {
        m
    }
}

/// The number a message is stored under: its own, or one past the count of
/// messages already in the conversation.
pub fn assign_seq(msg: &mut ChatMessage, current_count: u64)
    requires
        current_count < u64::MAX,
    ensures
        *final(msg) == numbered(*old(msg), current_count),
{
    if msg.local_seq == 0 {
        msg.local_seq = current_count + 1;
    }
}

/// The conversation's count after a message numbered `seq` is stored: the
/// larger of the two.
pub open spec fn count_after(count: u64, seq: u64) -> u64 {
    if count >= seq {
        count
    } else {
        seq
    }
}

pub fn next_count(current_count: u64, seq: u64) -> (n: u64)
    ensures
        n == count_after(current_count, seq),
{
    if current_count >= seq {
        current_count
    } else {
        seq
    }
}

/// Where a read of new messages starts: at the cursor, unless the cursor is
/// past the end of the file (the file was replaced), then from the start,
/// and the reader is told to start over.
pub fn delta_start(cursor: u64, file_len: u64) -> (r: (u64, bool))
    ensures
        r == if cursor > file_len {
            (0u64, true)
        } else {
            (cursor, false)
        },
{
    if cursor > file_len {
        (0, true)
    } else {
        (cursor, false)
    }
}

/// The lines `lines`, each followed by the line end `nl`.
pub open spec fn lines_joined<A>(lines: Seq<Seq<A>>, nl: A) -> Seq<A>
    decreases lines.len(),
{
    if lines.len() == 0 {
        Seq::empty()
    } else {
        lines_joined(lines.drop_last(), nl) + lines.last() + seq![nl]
    }
}

/// The JSON lines of a conversation: each encoded message followed by a
/// newline.
pub open spec fn jsonl_of(lines: Seq<Seq<u8>>) -> Seq<u8> {
    lines_joined(lines, 10u8)
}

/// A line that a JSON-lines body holds and gives back: not blank, with no
/// surrounding whitespace and no line end inside (as `serde_json` writes an
/// object).
pub open spec fn storable_line(l: Seq<char>) -> bool {
    &&& l.len() > 0
    &&& trim(l) == l
    &&& !l.contains('\n')
}

proof fn lemma_scan_joined(lines: Seq<Seq<char>>)
    requires
        forall|i: int| 0 <= i < lines.len() ==> storable_line(#[trigger] lines[i]),
    ensures
        field_scan(lines_joined(lines, '\n'), '\n') == (lines, Seq::<char>::empty()),
    decreases lines.len(),
{
    if lines.len() > 0 {
        let rest = lines.drop_last();
        let l = lines.last();
        assert(storable_line(lines[lines.len() - 1]));
        assert forall|i: int| 0 <= i < rest.len() implies storable_line(#[trigger] rest[i]) by {
            assert(rest[i] == lines[i]);
        }
        lemma_scan_joined(rest);
        let j = lines_joined(lines, '\n');
        lemma_field_scan_extend(lines_joined(rest, '\n'), l, '\n');
        assert(j.drop_last() =~= lines_joined(rest, '\n') + l);
        assert(j.last() == '\n');
        assert(Seq::<char>::empty() + l =~= l);
        assert(rest.push(l) =~= lines);
    }
}

/// What is written as JSON lines reads back as the same lines, in order:
/// the lines of a body made of storable lines, each followed by a newline,
/// are those lines.
pub proof fn law_jsonl_lines_read_back(lines: Seq<Seq<char>>)
    requires
        forall|i: int| 0 <= i < lines.len() ==> storable_line(#[trigger] lines[i]),
    ensures
        record_lines(lines_joined(lines, '\n')) == lines,
{
    lemma_scan_joined(lines);
    assert(trim(Seq::<char>::empty()) =~= Seq::<char>::empty());
}

/// Joins encoded messages into a JSON-lines file body.
pub fn serialize_jsonl(lines: &Vec<Vec<u8>>) -> (out: Vec<u8>)
    ensures
        out@ == jsonl_of(lines@.map_values(|l: Vec<u8>| l@)),
{
    let ghost ls = lines@.map_values(|l: Vec<u8>| l@);
    let mut out: Vec<u8> = Vec::new();
    let mut i: usize = 0;
    while i < lines.len()
        invariant
            i <= lines@.len(),
            ls == lines@.map_values(|l: Vec<u8>| l@),
            out@ == jsonl_of(ls.take(i as int)),
        decreases lines@.len() - i,
    {
        let line = &lines[i];
        let ghost before = out@;
        let mut j: usize = 0;
        while j < line.len()
            invariant
                j <= line@.len(),
                out@ == before + line@.take(j as int),
            decreases line@.len() - j,
        {
            out.push(line[j]);
            j = j + 1;
            assert(out@ =~= before + line@.take(j as int));
        }
        out.push(10u8);
        proof {
            assert(ls.take(i + 1).drop_last() =~= ls.take(i as int));
            assert(ls.take(i + 1).last() == line@);
            assert(line@.take(line@.len() as int) =~= line@);
            assert(out@ =~= jsonl_of(ls.take(i as int)) + line@ + seq![10u8]);
        }
        i = i + 1;
    }
    assert(ls.take(ls.len() as int) =~= ls);
    out
}

/// The lines of a JSON-lines body that hold a message: each non-blank line,
/// trimmed (each is then decoded by the caller).
pub fn jsonl_records(content: &str) -> (lines: Vec<String>)
    ensures
        lines@.len() == record_lines(content@).len(),
        forall|i: int| 0 <= i < lines@.len() ==> #[trigger] lines@[i]@ == record_lines(content@)[i],
{
    let raw = nonblank_lines(content);
    let mut out: Vec<String> = Vec::new();
    let mut i: usize = 0;
    while i < raw.len()
        invariant
            i <= raw@.len(),
            raw@.len() == record_lines(content@).len(),
            forall|k: int| 0 <= k < raw@.len() ==> #[trigger] raw@[k]@ == record_lines(content@)[k],
            out@.len() == i,
            forall|k: int| 0 <= k < i ==> #[trigger] out@[k]@ == record_lines(content@)[k],
        decreases raw@.len() - i,
    {
        out.push(string_of(raw[i].as_slice()));
        i = i + 1;
    }
    out
}

/// The number of messages in a JSON-lines body: its non-blank lines.
pub fn count_jsonl(content: &str) -> (n: usize)
    ensures
        n == record_lines(content@).len(),
{
    count_nonblank_lines(content)
}

/// The stem and extension of a file name, as `Path::file_stem` and
/// `Path::extension` split it: at the last `.`, unless that is the first
/// character.
pub open spec fn split_extension(name: Seq<char>) -> (Seq<char>, Option<Seq<char>>) {
    let k = last_dot(name);
    if k <= 0 {
        (name, None)
    } else {
        (name.take(k), Some(name.skip(k + 1)))
    }
}

/// The index of the last `.` in `s`, or -1.
pub open spec fn last_dot(s: Seq<char>) -> int
    decreases s.len(),
{
    if s.len() == 0 {
        -1
    } else if s.last() == '.' {
        s.len() - 1
    } else {
        last_dot(s.drop_last())
    }
}

proof fn lemma_last_dot(s: Seq<char>)
    ensures
        -1 <= last_dot(s) < s.len(),
        last_dot(s) >= 0 ==> s[last_dot(s)] == '.',
        forall|i: int| last_dot(s) < i < s.len() ==> s[i] != '.',
    decreases s.len(),
{
    if s.len() > 0 && s.last() != '.' {
        lemma_last_dot(s.drop_last());
        assert forall|i: int| last_dot(s) < i < s.len() implies s[i] != '.' by {
            if i < s.len() - 1 {
                assert(s[i] == s.drop_last()[i]);
            }
        }
    }
}

/// What a file of the messages directory holds.
#[derive(Debug, Clone, Copy, PartialEq, Eq, Structural)]
pub enum ConversationFile {
    /// A conversation as JSON lines (`<peer>.jsonl`).
    Lines,
    /// A conversation in the older single-array form (`<peer>.json`).
    Legacy,
}

/// The peer and kind of a file of the messages directory: a `jsonl` or
/// `json` extension and a non-empty stem, which is the peer's id.
pub open spec fn conversation_file_of(path: Seq<char>) -> Option<(Seq<char>, ConversationFile)> {
    match file_name_of(path) {
        Some(name) => {
            let (stem, ext) = split_extension(name);
            if stem.len() == 0 {
                None
            } else if ext == Some("jsonl"@) {
                Some((stem, ConversationFile::Lines))
            } else if ext == Some("json"@) {
                Some((stem, ConversationFile::Legacy))
            } else {
                None
            }
        },
        None => None,
    }
}

pub fn conversation_file(path: &str) -> (r: Option<(String, ConversationFile)>)
    ensures
        match conversation_file_of(path@) {
            Some((peer, kind)) => r matches Some((p, k)) && p@ == peer && k == kind,
            None => r is None,
        },
{
    let name = match crate::paths::file_name(path) {
        Some(n) => n,
        None => return None,
    };
    let c = chars_of(name.as_str());
    proof {
        lemma_last_dot(c@);
    }
    let mut k: usize = c.len();
    while k > 0 && c[k - 1] != '.'
        invariant
            k <= c@.len(),
            forall|i: int| k <= i < c@.len() ==> c@[i] != '.',
        decreases k,
    {
        k = k - 1;
    }
    proof {
        if k > 0 {
            assert(c@[k - 1] == '.');
            if last_dot(c@) != k - 1 {
                assert(last_dot(c@) > k - 1);
            }
        } else {
            if last_dot(c@) >= 0 {
                assert(c@[last_dot(c@)] == '.');
            }
        }
    }
    if k <= 1 {
        return None;
    }
    let dot = k - 1;
    let mut stem: Vec<char> = Vec::new();
    let mut i: usize = 0;
    while i < dot
        invariant
            i <= dot,
            dot < c@.len(),
            stem@ == c@.take(i as int),
        decreases dot - i,
    {
        stem.push(c[i]);
        i = i + 1;
        assert(stem@ =~= c@.take(i as int));
    }
    let mut ext: Vec<char> = Vec::new();
    let mut j: usize = dot + 1;
    while j < c.len()
        invariant
            dot + 1 <= j <= c@.len(),
            ext@ == c@.subrange(dot + 1, j as int),
        decreases c@.len() - j,
    {
        ext.push(c[j]);
        j = j + 1;
        assert(ext@ =~= c@.subrange(dot + 1, j as int));
    }
    assert(ext@ =~= c@.skip(dot + 1));
    let ext_s = string_of(ext.as_slice());
    let stem_s = string_of(stem.as_slice());
    if crate::text::str_equal(ext_s.as_str(), "jsonl") {
        Some((stem_s, ConversationFile::Lines))
    } else if crate::text::str_equal(ext_s.as_str(), "json") {
        Some((stem_s, ConversationFile::Legacy))
    } else {
        None
    }
}

/// The chat store's files, below a data directory.
pub struct MessageStore {
    data_dir: String,
}

impl MessageStore {
    pub closed spec fn dir_view(&self) -> Seq<char> {
        self.data_dir@
    }

    pub fn new(data_dir: String) -> (s: MessageStore)
        ensures
            s.dir_view() == data_dir@,
    {
        MessageStore { data_dir }
    }

    /// The directory of conversations: `<data_dir>/messages`.
    pub fn messages_dir(&self) -> (p: String)
        ensures
            p@ == joined(self.dir_view(), "messages"@),
    {
        join_path(self.data_dir.as_str(), "messages")
    }

    /// `<data_dir>/messages/<peer>.jsonl`.
    pub fn conversation_path(&self, peer_instance_id: &str) -> (p: String)
        ensures
            p@ == joined(joined(self.dir_view(), "messages"@), peer_instance_id@ + ".jsonl"@),
    {
        let dir = self.messages_dir();
        let name = concat_str(peer_instance_id, ".jsonl");
        join_path(dir.as_str(), name.as_str())
    }

    /// `<data_dir>/messages/<peer>.json`, the older form.
    pub fn legacy_conversation_path(&self, peer_instance_id: &str) -> (p: String)
        ensures
            p@ == joined(joined(self.dir_view(), "messages"@), peer_instance_id@ + ".json"@),
    {
        let dir = self.messages_dir();
        let name = concat_str(peer_instance_id, ".json");
        join_path(dir.as_str(), name.as_str())
    }

    /// `<data_dir>/messages/counts.json`.
    pub fn count_index_path(&self) -> (p: String)
        ensures
            p@ == joined(joined(self.dir_view(), "messages"@), "counts.json"@),
    {
        let dir = self.messages_dir();
        join_path(dir.as_str(), "counts.json")
    }
}

/// A message received from a peer, as it is stored in that peer's
/// conversation (numbered when stored).
pub fn incoming_message(
    id: String,
    from_instance_id: String,
    from_instance_name: String,
    content: String,
    timestamp: u64,
) -> (m: ChatMessage)
    ensures
        m == (ChatMessage {
            id,
            from_instance_id,
            from_instance_name,
            content,
            timestamp,
            local_seq: 0,
            is_self: false,
        }),
{
    ChatMessage { id, from_instance_id, from_instance_name, content, timestamp, local_seq: 0, is_self: false }
}

// ---------------------------------------------------------------------------
// The count index: how many messages each conversation holds.
// ---------------------------------------------------------------------------

/// Whether a count entry belongs to `peer`.
pub open spec fn count_key(peer: Seq<char>) -> spec_fn((Seq<char>, u64)) -> bool {
    |e: (Seq<char>, u64)| e.0 == peer
}

/// The counts after the files of one kind in `files` (path and message
/// count, in listing order) have filled in the peers that had none.
pub open spec fn filled(
    counts: Seq<(Seq<char>, u64)>,
    files: Seq<(Seq<char>, u64)>,
    kind: ConversationFile,
) -> Seq<(Seq<char>, u64)>
    decreases files.len(),
{
    if files.len() == 0 {
        counts
    } else {
        let r = filled(counts, files.drop_last(), kind);
        match conversation_file_of(files.last().0) {
            Some((peer, k)) => if k == kind && first_where(r, count_key(peer)) < 0 {
                r.push((peer, files.last().1))
            } else {
                r
            },
            None => r,
        }
    }
}

/// The counts after `count` is recorded for `peer`: its entry is replaced,
/// or added at the end when it has none.
pub open spec fn counts_after_set(v: Seq<(Seq<char>, u64)>, peer: Seq<char>, count: u64) -> Seq<
    (Seq<char>, u64),
> {
    let i = first_where(v, count_key(peer));
    if i >= 0 {
        v.update(i, (peer, count))
    } else {
        v.push((peer, count))
    }
}

/// The count recorded for `peer` in `v`, if any.
pub open spec fn count_lookup(v: Seq<(Seq<char>, u64)>, peer: Seq<char>) -> Option<u64> {
    let i = first_where(v, count_key(peer));
    if i >= 0 {
        Some(v[i].1)
    } else {
        None
    }
}

/// The number of messages of each conversation, as kept in the index file;
/// each peer appears at most once.
pub struct CountIndex {
    entries: Vec<(String, u64)>,
}

impl CountIndex {
    pub closed spec fn counts_view(&self) -> Seq<(Seq<char>, u64)> {
        self.entries@.map_values(|e: (String, u64)| (e.0@, e.1))
    }

    pub fn new() -> (c: CountIndex)
        ensures
            c.counts_view() == Seq::<(Seq<char>, u64)>::empty(),
    {
        let c = CountIndex { entries: Vec::new() };
        assert(c.counts_view() =~= Seq::<(Seq<char>, u64)>::empty());
        c
    }

    fn find(&self, peer: &str) -> (r: Option<usize>)
        ensures
            match r {
                Some(i) => i < self.counts_view().len() && i == first_where(
                    self.counts_view(),
                    count_key(peer@),
                ),
                None => first_where(self.counts_view(), count_key(peer@)) == -1,
            },
    {
        let ghost v = self.counts_view();
        let ghost p = count_key(peer@);
        let mut i: usize = 0;
        while i < self.entries.len()
            invariant
                i <= self.entries@.len(),
                v == self.counts_view(),
                v.len() == self.entries@.len(),
                p == count_key(peer@),
                forall|k: int| 0 <= k < i ==> !p(#[trigger] v[k]),
            decreases self.entries@.len() - i,
        {
            assert(v[i as int] == (self.entries@[i as int].0@, self.entries@[i as int].1));
            if str_equal(self.entries[i].0.as_str(), peer) {
                proof {
                    lemma_first_where(v, p, i as int);
                }
                return Some(i);
            }
            i = i + 1;
        }
        proof {
            lemma_first_where(v, p, i as int);
        }
        None
    }

    /// The count recorded for `peer`, if any.
    pub fn get(&self, peer: &str) -> (r: Option<u64>)
        ensures
            r == count_lookup(self.counts_view(), peer@),
    {
        match self.find(peer) {
            Some(i) => Some(self.entries[i].1),
            None => None,
        }
    }

    /// Records `count` for `peer`, replacing what was there.
    pub fn set(&mut self, peer: &str, count: u64)
        ensures
            final(self).counts_view() == counts_after_set(old(self).counts_view(), peer@, count),
    {
        let ghost v = self.counts_view();
        match self.find(peer) {
            Some(i) => {
                self.entries.set(i, (peer.to_string(), count));
                assert(self.counts_view() =~= v.update(i as int, (peer@, count)));
            },
            None => {
                self.entries.push((peer.to_string(), count));
                assert(self.counts_view() =~= v.push((peer@, count)));
            },
        }
    }

    /// Records `count` for `peer` when it has no count yet; tells whether it
    /// did.
    pub fn fill_missing(&mut self, peer: &str, count: u64) -> (added: bool)
        ensures
            ({
                let v = old(self).counts_view();
                let absent = first_where(v, count_key(peer@)) < 0;
                &&& added == absent
                &&& final(self).counts_view() == if absent {
                    v.push((peer@, count))
                } else {
                    v
                }
            }),
    {
        let ghost v = self.counts_view();
        match self.find(peer) {
            Some(_) => false,
            None => {
                self.entries.push((peer.to_string(), count));
                assert(self.counts_view() =~= v.push((peer@, count)));
                true
            },
        }
    }

    /// Every peer with its count, in the order they were recorded.
    pub fn get_all_counts(&self) -> (all: Vec<(String, u64)>)
        ensures
            all@.map_values(|e: (String, u64)| (e.0@, e.1)) == self.counts_view(),
    {
        let mut all: Vec<(String, u64)> = Vec::new();
        let mut i: usize = 0;
        while i < self.entries.len()
            invariant
                i <= self.entries@.len(),
                all@.len() == i,
                all@.map_values(|e: (String, u64)| (e.0@, e.1)) == self.counts_view().take(i as int),
            decreases self.entries@.len() - i,
        {
            let ghost before = all@;
            let name = self.entries[i].0.clone();
            assert(name@ == self.entries@[i as int].0@);
            all.push((name, self.entries[i].1));
            proof {
                let f = |e: (String, u64)| (e.0@, e.1);
                assert(all@ =~= before.push(all@[i as int]));
                assert(all@.map_values(f) =~= before.map_values(f).push(f(all@[i as int])));
                assert(self.counts_view().take(i + 1) =~= self.counts_view().take(i as int).push(
                    self.counts_view()[i as int],
                ));
            }
            i = i + 1;
        }
        assert(self.counts_view().take(i as int) =~= self.counts_view());
        all
    }

    /// The number of messages in the conversation with `peer`: its recorded
    /// count, or else the messages of its file (`content`), or zero when
    /// there is no file.
    pub fn current_count(&self, peer: &str, content: Option<&str>) -> (n: u64)
        ensures
            ({
                n == match count_lookup(self.counts_view(), peer@) {
                    Some(c) => c,
                    None => match content {
                        Some(t) => #[verifier::truncate] (record_lines(t@).len() as u64),
                        None => 0u64,
                    }
                }
            }),
    {
        match self.get(peer) {
            Some(c) => c,
            None => match content {
                Some(t) => count_jsonl(t) as u64,
                None => 0,
            },
        }
    }

    fn fill_kind(&mut self, files: &Vec<(String, u64)>, kind: ConversationFile) -> (changed: bool)
        ensures
            final(self).counts_view() == filled(old(self).counts_view(), files@.map_values(
                |f: (String, u64)| (f.0@, f.1),
            ), kind),
            changed == (final(self).counts_view().len() != old(self).counts_view().len()),
            final(self).counts_view().len() >= old(self).counts_view().len(),
    {
        let ghost fs = files@.map_values(|f: (String, u64)| (f.0@, f.1));
        let ghost start = self.counts_view();
        let mut changed = false;
        let mut i: usize = 0;
        while i < files.len()
            invariant
                i <= files@.len(),
                fs == files@.map_values(|f: (String, u64)| (f.0@, f.1)),
                self.counts_view() == filled(start, fs.take(i as int), kind),
                self.counts_view().len() >= start.len(),
                changed == (self.counts_view().len() != start.len()),
            decreases files@.len() - i,
        {
            proof {
                assert(fs.take(i + 1).drop_last() =~= fs.take(i as int));
                assert(fs.take(i + 1).last() == (files@[i as int].0@, files@[i as int].1));
            }
            match conversation_file(files[i].0.as_str()) {
                Some((peer, k)) => {
                    if k == kind {
                        if self.fill_missing(peer.as_str(), files[i].1) {
                            changed = true;
                        }
                    }
                },
                None => {},
            }
            i = i + 1;
        }
        assert(fs.take(files@.len() as int) =~= fs);
        changed
    }

    /// Fills in the peers without a count from the files of the messages
    /// directory (path and message count, in listing order): first from the
    /// JSON-lines conversations, then from the older single-array ones.
    /// Tells whether any count was added.
    pub fn populate_missing_counts(&mut self, files: &Vec<(String, u64)>) -> (changed: bool)
        ensures
            ({
                let fs = files@.map_values(|f: (String, u64)| (f.0@, f.1));
                final(self).counts_view() == filled(
                    filled(old(self).counts_view(), fs, ConversationFile::Lines),
                    fs,
                    ConversationFile::Legacy,
                )
            }),
            changed == (final(self).counts_view().len() != old(self).counts_view().len()),
    {
        let a = self.fill_kind(files, ConversationFile::Lines);
        let b = self.fill_kind(files, ConversationFile::Legacy);
        a || b
    }
}

/// No peer has two entries in the counts `v`.
pub open spec fn one_count_per_peer(v: Seq<(Seq<char>, u64)>) -> bool {
    forall|i: int, j: int| 0 <= i < j < v.len() ==> (#[trigger] v[i]).0 != (#[trigger] v[j]).0
}

/// Recording a count keeps one entry per peer.
pub proof fn law_count_index_keeps_one_entry_per_peer(v: Seq<(Seq<char>, u64)>, peer: Seq<char>, count: u64)
    requires
        one_count_per_peer(v),
    ensures
        one_count_per_peer(counts_after_set(v, peer, count)),
{
    let w = counts_after_set(v, peer, count);
    lemma_first_where_props(v, count_key(peer));
    let i = first_where(v, count_key(peer));
    assert forall|a: int, b: int| 0 <= a < b < w.len() implies (#[trigger] w[a]).0 != (#[trigger] w[b]).0 by {
        if i >= 0 {
            if a == i {
                assert(w[b] == v[b]);
                assert(v[i].0 == peer);
            } else if b == i {
                assert(w[a] == v[a]);
                assert(v[i].0 == peer);
            } else {
                assert(w[a] == v[a] && w[b] == v[b]);
            }
        } else {
            if b == v.len() {
                assert(w[a] == v[a]);
                assert(!count_key(peer)(v[a]));
            } else {
                assert(w[a] == v[a] && w[b] == v[b]);
            }
        }
    }
}

/// The count index gives back what was last recorded: after `count` is set
/// for `peer`, looking `peer` up gives `count`, and looking up any other
/// peer gives what it gave before.
pub proof fn law_count_read_after_set(v: Seq<(Seq<char>, u64)>, peer: Seq<char>, count: u64, other: Seq<char>)
    ensures
        count_lookup(counts_after_set(v, peer, count), peer) == Some(count),
        other != peer ==> count_lookup(counts_after_set(v, peer, count), other) == count_lookup(v, other),
{
    let w = counts_after_set(v, peer, count);
    let p = count_key(peer);
    let q = count_key(other);
    lemma_first_where_props(v, p);
    lemma_first_where_props(v, q);
    let i = first_where(v, p);
    let j = first_where(v, q);
    if i >= 0 {
        assert forall|k: int| 0 <= k < i implies !p(#[trigger] w[k]) by {
            assert(w[k] == v[k]);
        }
        lemma_first_where(w, p, i);
    } else {
        assert forall|k: int| 0 <= k < v.len() implies !p(#[trigger] w[k]) by {
            assert(w[k] == v[k]);
        }
        lemma_first_where(w, p, v.len() as int);
    }
    if other != peer {
        assert forall|k: int| 0 <= k < w.len() implies (#[trigger] q(w[k]) <==> (k < v.len() && q(v[k]))) by {
            if k == i || k == v.len() {
                assert(w[k].0 == peer);
            } else {
                assert(w[k] == v[k]);
            }
        }
        if j >= 0 {
            assert forall|k: int| 0 <= k < j implies !q(#[trigger] w[k]) by {
                assert(k < v.len() && !q(v[k]));
            }
            assert(q(w[j]));
            lemma_first_where(w, q, j);
            if i >= 0 {
                assert(j != i);
            }
            assert(w[j] == v[j]);
        } else {
            assert forall|k: int| 0 <= k < w.len() implies !q(#[trigger] w[k]) by {
                if k < v.len() {
                    assert(!q(v[k]));
                }
            }
            lemma_first_where(w, q, w.len() as int);
        }
    }
}

/// Milliseconds since the Unix epoch (`SystemTime::now().duration_since(UNIX_EPOCH)`,
/// `as_millis`, truncated to 64 bits; zero for a clock set before the epoch).
#[verifier::external_body]
fn unix_time_ms() -> (t: u64)
{
    std::time::SystemTime::now().duration_since(std::time::UNIX_EPOCH).unwrap_or_default().as_millis() as u64
}

/// A chat message of ours, as it is stored in our copy of the conversation
/// and as it is sent to the peer: both under the same id and time.
pub open spec fn own_text(
    id: String,
    from_instance_id: String,
    from_instance_name: String,
    content: String,
    timestamp: u64,
) -> (ChatMessage, Message) {
    (
        ChatMessage {
            id,
            from_instance_id,
            from_instance_name,
            content,
            timestamp,
            local_seq: 0,
            is_self: true,
        },
        Message::TextMessage(TextMessage { id, from_instance_id, from_instance_name, content, timestamp }),
    )
}

pub fn text_message_parts(
    id: String,
    from_instance_id: String,
    from_instance_name: String,
    content: String,
    timestamp: u64,
) -> (r: (ChatMessage, Message))
    ensures
        r == own_text(id, from_instance_id, from_instance_name, content, timestamp),
{
    let chat = ChatMessage {
        id: id.clone(),
        from_instance_id: from_instance_id.clone(),
        from_instance_name: from_instance_name.clone(),
        content: content.clone(),
        timestamp,
        local_seq: 0,
        is_self: true,
    };
    (chat, Message::TextMessage(TextMessage { id, from_instance_id, from_instance_name, content, timestamp }))
}

/// A new chat message of ours, under a fresh random id and the current
/// time: the stored copy and the message to send.
pub fn compose_text_message(from_instance_id: String, from_instance_name: String, content: String) -> (r: (
    ChatMessage,
    Message,
))
    ensures
        hyphenated_uuid(r.0.id@),
        r == own_text(r.0.id, from_instance_id, from_instance_name, content, r.0.timestamp),
{
    let id = generate_instance_id();
    let timestamp = unix_time_ms();
    text_message_parts(id, from_instance_id, from_instance_name, content, timestamp)
}

/// A chat message received from a peer: what is stored in the peer's
/// conversation, and the acknowledgement sent back.
pub fn text_message_received(msg: TextMessage) -> (r: (String, ChatMessage, Message))
    ensures
        r.0 == msg.from_instance_id,
        r.1 == (ChatMessage {
            id: msg.id,
            from_instance_id: msg.from_instance_id,
            from_instance_name: msg.from_instance_name,
            content: msg.content,
            timestamp: msg.timestamp,
            local_seq: 0,
            is_self: false,
        }),
        r.2 == Message::TextAck(TextAck { message_id: msg.id }),
{
    let peer = msg.from_instance_id.clone();
    let ack = Message::TextAck(TextAck { message_id: msg.id.clone() });
    let chat = incoming_message(msg.id, msg.from_instance_id, msg.from_instance_name, msg.content, msg.timestamp);
    (peer, chat, ack)
}

/// Storing one message after another into a conversation numbers them in
/// order: when neither has a number and `c` messages are already there,
/// they are stored as `c + 1` and `c + 2`, and the count becomes `c + 2`.
pub proof fn law_messages_numbered_in_order(c: u64, first: ChatMessage, second: ChatMessage)
    requires
        c + 2 <= u64::MAX,
        first.local_seq == 0,
        second.local_seq == 0,
    ensures
        ({
            let a = numbered(first, c);
            let c1 = count_after(c, a.local_seq);
            let b = numbered(second, c1);
            &&& a.local_seq == c + 1
            &&& b.local_seq == c + 2
            &&& a.local_seq < b.local_seq
            &&& count_after(c1, b.local_seq) == c + 2
        }),
{
}

} // verus!
