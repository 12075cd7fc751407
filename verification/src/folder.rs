//! Folders: the entries found below a folder, their total size, and how a
//! folder is sent as a series of files under the folder's name.
use vstd::prelude::*;
use crate::paths::{joined, join_path, file_name, file_name_of};
use crate::text::{chars_of, string_of, concat_str};
use crate::transfer_state::{chunk_count, total_chunks_for};

verus! {

/// A file or directory below a scanned folder.
#[derive(Debug)]
pub struct FileEntry {
    /// The path relative to the scanned folder.
    pub relative_path: String,
    pub size: u64,
    pub is_dir: bool,
}

impl Clone for FileEntry {
    fn clone(&self) -> (r: Self)
        ensures
            r == *self,
    {
        FileEntry { relative_path: self.relative_path.clone(), size: self.size, is_dir: self.is_dir }
    }
}

/// The total size of the files (not directories) among `s`.
pub open spec fn files_size(s: Seq<FileEntry>) -> nat
    decreases s.len(),
{
    if s.len() == 0 {
        0
    } else {
        files_size(s.drop_last()) + if s.last().is_dir {
            0
        } else {
            s.last().size as nat
        }
    }
}

/// The number of files (not directories) among `s`.
pub open spec fn files_count(s: Seq<FileEntry>) -> nat
    decreases s.len(),
{
    if s.len() == 0 {
        0
    } else {
        files_count(s.drop_last()) + if s.last().is_dir {
            0nat
        } else {
            1nat
        }
    }
}

proof fn lemma_files_size_prefix(s: Seq<FileEntry>, i: int)
    requires
        0 <= i <= s.len(),
    ensures
        files_size(s.take(i)) <= files_size(s),
    decreases s.len() - i,
{
    if i < s.len() {
        lemma_files_size_prefix(s, i + 1);
        assert(s.take(i + 1).drop_last() == s.take(i));
    } else {
        assert(s.take(i) == s);
    }
}

/// The sum of the sizes of the files among `entries`.
pub fn calculate_total_size(entries: &[FileEntry]) -> (n: u64)
    requires
        files_size(entries@) <= u64::MAX,
    ensures
        n == files_size(entries@),
{
    let mut n: u64 = 0;
    let mut i: usize = 0;
    while i < entries.len()
        invariant
            i <= entries@.len(),
            n == files_size(entries@.take(i as int)),
            files_size(entries@) <= u64::MAX,
        decreases entries@.len() - i,
    {
        proof {
            assert(entries@.take(i + 1).drop_last() == entries@.take(i as int));
            lemma_files_size_prefix(entries@, i + 1);
        }
        if !entries[i].is_dir {
            n = n + entries[i].size;
        }
        i = i + 1;
    }
    assert(entries@.take(entries@.len() as int) == entries@);
    n
}

/// The number of files among `entries`.
pub fn count_files(entries: &[FileEntry]) -> (n: usize)
    ensures
        n == files_count(entries@),
{
    let mut n: usize = 0;
    let mut i: usize = 0;
    while i < entries.len()
        invariant
            i <= entries@.len(),
            n == files_count(entries@.take(i as int)),
            n <= i,
        decreases entries@.len() - i,
    {
        assert(entries@.take(i + 1).drop_last() == entries@.take(i as int));
        if !entries[i].is_dir {
            n = n + 1;
        }
        i = i + 1;
    }
    assert(entries@.take(entries@.len() as int) == entries@);
    n
}

/// The chunks of all files among `s`, each file counted as the protocol
/// counts it.
pub open spec fn files_chunks(s: Seq<FileEntry>, chunk_size: u32) -> nat
    decreases s.len(),
{
    if s.len() == 0 {
        0
    } else {
        files_chunks(s.drop_last(), chunk_size) + if s.last().is_dir {
            0
        } else {
            (#[verifier::truncate] (chunk_count(s.last().size, chunk_size) as u32)) as nat
        }
    }
}

proof fn lemma_files_chunks_prefix(s: Seq<FileEntry>, c: u32, i: int)
    requires
        0 <= i <= s.len(),
    ensures
        files_chunks(s.take(i), c) <= files_chunks(s, c),
    decreases s.len() - i,
{
    if i < s.len() {
        lemma_files_chunks_prefix(s, c, i + 1);
        assert(s.take(i + 1).drop_last() == s.take(i));
    } else {
        assert(s.take(i) == s);
    }
}

/// How a folder is sent: under the folder's name, file by file.
pub struct FolderPlan {
    pub folder_name: String,
    /// What the folder is shown as: its name and a slash.
    pub display_name: String,
    /// The files to send, in scan order.
    pub files: Vec<FileEntry>,
    pub total_size: u64,
    pub total_chunks: u32,
}

/// The name a folder is sent under: its last component, or `folder`.
pub open spec fn folder_name_of(path: Seq<char>) -> Seq<char> {
    match file_name_of(path) {
        Some(n) => n,
        None => "folder"@,
    }
}

/// Whether every file among `s` can be cut into chunks of `chunk_size`
/// without overflow, and the folder's size and chunk count fit.
pub open spec fn folder_fits(s: Seq<FileEntry>, chunk_size: u32) -> bool {
    &&& chunk_size > 0
    &&& forall|i: int| 0 <= i < s.len() ==> (#[trigger] s[i]).size + chunk_size <= u64::MAX
    &&& files_size(s) <= u64::MAX
    &&& files_chunks(s, chunk_size) <= u32::MAX
}

/// Plans sending the folder at `folder_path` whose scan gave `entries`:
/// nothing to do when it holds no file.
pub fn plan_folder(folder_path: &str, entries: &Vec<FileEntry>, chunk_size: u32) -> (r: Option<FolderPlan>)
    requires
        folder_fits(entries@, chunk_size),
    ensures
        files_count(entries@) == 0 <==> r is None,
        r matches Some(p) ==> {
            &&& p.folder_name@ == folder_name_of(folder_path@)
            &&& p.display_name@ == folder_name_of(folder_path@) + "/"@
            &&& p.files@ == entries@.filter(|e: FileEntry| !e.is_dir)
            &&& p.total_size == files_size(entries@)
            &&& p.total_chunks == files_chunks(entries@, chunk_size)
        },
{
    let ghost keep = |e: FileEntry| !e.is_dir;
    let mut files: Vec<FileEntry> = Vec::new();
    let mut total_size: u64 = 0;
    let mut total_chunks: u32 = 0;
    let mut i: usize = 0;
    while i < entries.len()
        invariant
            i <= entries@.len(),
            keep == (|e: FileEntry| !e.is_dir),
            folder_fits(entries@, chunk_size),
            files@ == entries@.take(i as int).filter(keep),
            files@.len() == files_count(entries@.take(i as int)),
            total_size == files_size(entries@.take(i as int)),
            total_chunks == files_chunks(entries@.take(i as int), chunk_size),
        decreases entries@.len() - i,
    {
        let e = entries[i].clone();
        proof {
            assert(entries@.take(i + 1).drop_last() =~= entries@.take(i as int));
            assert(entries@.take(i + 1) =~= entries@.take(i as int).push(e));
            entries@.take(i as int).lemma_filter_push(e, keep);
            lemma_files_size_prefix(entries@, i + 1);
            lemma_files_chunks_prefix(entries@, chunk_size, i + 1);
        }
        if !e.is_dir {
            total_size = total_size + e.size;
            let n = total_chunks_for(e.size, chunk_size);
            total_chunks = total_chunks + n;
            files.push(e);
        }
        i = i + 1;
    }
    assert(entries@.take(entries@.len() as int) =~= entries@);
    if files.len() == 0 {
        return None;
    }
    let folder_name = match file_name(folder_path) {
        Some(n) => n,
        None => "folder".to_string(),
    };
    let display_name = concat_str(folder_name.as_str(), "/");
    Some(FolderPlan { folder_name, display_name, files, total_size, total_chunks })
}

/// `s` with every `\` turned into `/`.
pub open spec fn slashes(s: Seq<char>) -> Seq<char> {
    s.map_values(|c: char| if c == '\\' { '/' } else { c })
}

/// How one file of a folder travels: the name shown while it is sent (its
/// relative path with `/` separators), the path announced to the receiver
/// (`<folder>/<that name>`), and where it is read from.
pub struct FolderFile {
    pub current_name: String,
    pub relative_path: String,
    pub source_path: String,
}

pub fn folder_file(folder_path: &str, folder_name: &str, entry: &FileEntry) -> (f: FolderFile)
    ensures
        f.current_name@ == slashes(entry.relative_path@),
        f.relative_path@ == folder_name@ + "/"@ + slashes(entry.relative_path@),
        f.source_path@ == joined(folder_path@, entry.relative_path@),
{
    let c = chars_of(entry.relative_path.as_str());
    let mut out: Vec<char> = Vec::new();
    let mut i: usize = 0;
    while i < c.len()
        invariant
            i <= c@.len(),
            out@ == slashes(c@.take(i as int)),
        decreases c@.len() - i,
    {
        out.push(if c[i] == '\\' {
            '/'
        } else {
            c[i]
        });
        i = i + 1;
        assert(out@ =~= slashes(c@.take(i as int)));
    }
    assert(c@.take(c@.len() as int) =~= c@);
    let current_name = string_of(out.as_slice());
    let head = concat_str(folder_name, "/");
    let relative_path = concat_str(head.as_str(), current_name.as_str());
    let source_path = join_path(folder_path, entry.relative_path.as_str());
    FolderFile { current_name, relative_path, source_path }
}

} // verus!
