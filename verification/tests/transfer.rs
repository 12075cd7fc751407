use netfile_core::digest::{calculate_chunk_checksum, transfer_file_id, FileDigest};
use netfile_core::books::{recv_progress_id, ChunkGo, ReceiveStart, TransferBooks};
use netfile_core::folder::{calculate_total_size, count_files, folder_file, plan_folder, FileEntry};
use netfile_core::history::{completed_record, HistoryStore, TransferRecord, MAX_RECORDS};
use netfile_core::progress::{format_duration, ProgressTracker, TransferControl};
use netfile_core::protocol::{ChunkData, Message, TransferComplete, TransferError, TransferRequest, TransferResponse};
use netfile_core::receiver::{
    acceptance, can_resume, chunks_to_receive, final_step, receive_stream_chunk, rejection, state_is_consistent,
    target_path, temp_path, FileReceiver, FinalStep, ReceiveError,
};
use netfile_core::sender::{
    announced_file_name, pacing_delay_micros, stream_count_for, stream_ranges, FileSender, SendError, SendSession,
};
use netfile_core::share::{BookmarkEntry, BookmarkStore, ShareEntry, ShareStore};
use netfile_core::task_queue::{TaskQueue, TaskStatus, TransferTask, PROGRESS_DONE_BITS};
use netfile_core::transfer_state::{total_chunks_for, TransferState};

fn request(name: &str, size: u64, chunk: u32) -> TransferRequest {
    TransferRequest {
        file_id: "fid".to_string(),
        file_name: name.to_string(),
        relative_path: None,
        file_size: size,
        chunk_size: chunk,
        device_id: String::new(),
        password_hash: None,
        stream_count: None,
    }
}

#[test]
fn transfer_state_counts_chunks() {
    assert_eq!(total_chunks_for(0, 4), 0);
    assert_eq!(total_chunks_for(1, 4), 1);
    assert_eq!(total_chunks_for(8, 4), 2);
    assert_eq!(total_chunks_for(9, 4), 3);
    let mut s = TransferState::new("f".to_string(), "/d/f".to_string(), 9, 4, "/t/f.tmp".to_string());
    assert_eq!(s.total_chunks, 3);
    assert!(!s.is_complete());
    assert_eq!(s.next_expected_chunk(), 0);
    s.mark_completed(0);
    s.mark_completed(2);
    assert_eq!(s.next_expected_chunk(), 1);
    s.mark_completed(1);
    assert!(s.is_complete());
    assert_eq!(s.next_expected_chunk(), 3);
}

#[test]
fn state_file_path_layout() {
    assert_eq!(TransferState::state_file_path("/data", "abc"), "/data/transfers/abc.json");
    assert_eq!(TransferState::state_file_path("/data/", "abc"), "/data/transfers/abc.json");
    assert_eq!(temp_path("/data", "abc"), "/data/temp/abc.tmp");
}

#[test]
fn receiver_paths_and_resume() {
    let req = request("a.bin", 10, 4);
    assert_eq!(target_path(&req, "/dl"), "/dl/a.bin");
    let mut rel = request("a.bin", 10, 4);
    rel.relative_path = Some("dir/a.bin".to_string());
    assert_eq!(target_path(&rel, "/dl"), "/dl/dir/a.bin");

    let mut s = TransferState::new("fid".to_string(), "/dl/a.bin".to_string(), 10, 4, "/t".to_string());
    s.mark_completed(0);
    assert!(state_is_consistent(&s));
    assert!(can_resume(&s, &req));
    assert!(!can_resume(&s, &request("a.bin", 11, 4)));
    let r = FileReceiver::resume(s, "/data");
    assert_eq!(r.resume_from_chunk(), 1);
    assert_eq!(r.skip_bytes(), 4);
    assert_eq!(chunks_to_receive(&r), 2);

    let mut bad = TransferState::new("fid".to_string(), "/dl/a.bin".to_string(), 10, 4, "/t".to_string());
    bad.completed_chunks.insert(3);
    assert!(!state_is_consistent(&bad));
}

#[test]
fn receiver_takes_chunks_and_checks_hash() {
    let req = request("a.bin", 6, 4);
    let mut r = FileReceiver::new_fresh(&req, "/dl", "/data");
    assert_eq!(r.resume_from_chunk(), 0);
    let good = ChunkData {
        file_id: "fid".to_string(),
        chunk_index: 0,
        data: b"abcd".to_vec(),
        checksum: calculate_chunk_checksum(b"abcd"),
        compressed: false,
    };
    let bad_sum = ChunkData { checksum: 1, ..good.clone_for_test() };
    assert_eq!(r.write_chunk(&bad_sum), Err(ReceiveError::ChecksumMismatch));
    let out_of_range = ChunkData { chunk_index: 2, ..good.clone_for_test() };
    assert_eq!(r.write_chunk(&out_of_range), Err(ReceiveError::InvalidChunkIndex));
    let mut file = FileDigest::new();
    file.update(b"abc");
    file.update(b"def");
    let w = r.write_chunk_raw(1, b"ef".to_vec()).ok().unwrap();
    assert_eq!(r.finalize(&file, [0u8; 32]), Err(ReceiveError::NotComplete));
    // Chunks arrive out of order: the file is still checked in offset order.
    assert_eq!(r.write_chunk(&good), Ok(0));
    assert_eq!(w.offset, 4);
    assert!(!w.persist);
    assert!(r.is_complete());

    let mut sender = SendSession::new("a.bin", 6, 4, false, 0);
    sender.absorb_skipped(b"abcdef");
    let hash = match sender.complete_message() {
        Message::TransferComplete(tc) => tc.file_hash,
        _ => panic!("expected completion"),
    };
    assert_eq!(r.finalize(&file, hash), Ok(()));
    assert_eq!(r.finalize(&file, [0u8; 32]), Err(ReceiveError::HashMismatch));
    let mut wrong = FileDigest::new();
    wrong.update(b"efabcd");
    assert_eq!(r.finalize(&wrong, hash), Err(ReceiveError::HashMismatch));
    assert_eq!(ReceiveError::HashMismatch.message(), "File hash mismatch");

    match final_step(&r, &file, &Message::TransferComplete(TransferComplete { file_id: "fid".to_string(), file_hash: hash })) {
        FinalStep::Accept(Message::TransferComplete(tc)) => assert_eq!(tc.file_hash, hash),
        _ => panic!("expected acceptance"),
    }
    match final_step(&r, &file, &Message::TransferComplete(TransferComplete { file_id: "fid".to_string(), file_hash: [1u8; 32] })) {
        FinalStep::Refuse(Message::TransferError(e)) => assert_eq!(e.error, "File hash mismatch"),
        _ => panic!("expected refusal"),
    }
    match final_step(&r, &file, &rejection("fid")) {
        FinalStep::Abandon => {}
        _ => panic!("expected abandon"),
    }
}

trait CloneForTest {
    fn clone_for_test(&self) -> Self;
}

impl CloneForTest for ChunkData {
    fn clone_for_test(&self) -> Self {
        ChunkData {
            file_id: self.file_id.clone(),
            chunk_index: self.chunk_index,
            data: self.data.clone(),
            checksum: self.checksum,
            compressed: self.compressed,
        }
    }
}

#[test]
fn stream_chunks_decompress() {
    let req = request("a.txt", 5000, 5000);
    let mut r = FileReceiver::new_fresh(&req, "/dl", "/data");
    let data = vec![b'q'; 5000];
    let packed = netfile_core::compression::Compressor::compress(&data).unwrap();
    let w = receive_stream_chunk(&mut r, 0, true, packed).ok().unwrap();
    assert_eq!(w.data, data);
    assert!(receive_stream_chunk(&mut r, 1, false, vec![1]).is_err());
    assert!(receive_stream_chunk(&mut r, 0, true, vec![1, 2, 3]).is_err());
}

#[test]
fn responses() {
    match acceptance("f", "/dl", 3) {
        Message::TransferResponse(TransferResponse { accepted, resume_from_chunk, save_path, .. }) => {
            assert!(accepted);
            assert_eq!(resume_from_chunk, Some(3));
            assert_eq!(save_path, Some("/dl".to_string()));
        }
        _ => panic!("expected response"),
    }
    match acceptance("f", "/dl", 0) {
        Message::TransferResponse(r) => assert_eq!(r.resume_from_chunk, None),
        _ => panic!("expected response"),
    }
    match rejection("f") {
        Message::TransferResponse(r) => assert!(!r.accepted),
        _ => panic!("expected response"),
    }
}

#[test]
fn file_sender_prepares_request() {
    let s = FileSender::new("/home/u/report.pdf".to_string(), 1024, "/data".to_string());
    assert_eq!(s.file_id().len(), 36);
    let s = s.with_relative_path("docs/report.pdf".to_string());
    let r = s.prepare(5000);
    assert_eq!(r.file_name, "report.pdf");
    assert_eq!(r.relative_path, Some("docs/report.pdf".to_string()));
    assert_eq!(r.file_size, 5000);
    assert_eq!(r.chunk_size, 1024);
    assert_eq!(s.chunk_offset(3), 3072);
    let c = s.read_chunk(2, b"xyz".to_vec());
    assert_eq!(c.checksum, calculate_chunk_checksum(b"xyz"));
    assert!(!c.compressed);
    assert_eq!(announced_file_name("/"), "unknown");
    assert_eq!(announced_file_name("a/b/"), "b");
    assert_eq!(announced_file_name("a/.."), "unknown");
}

#[test]
fn send_session_walks_the_chunks() {
    let mut s = SendSession::new("f.bin", 10, 4, false, 4_000_000);
    assert_eq!(s.file_id(), transfer_file_id("f.bin", 10));
    assert_eq!(s.file_id().len(), 32);
    assert_eq!(s.total_chunks(), 3);
    let resp = Message::TransferResponse(TransferResponse {
        file_id: "x".to_string(),
        accepted: true,
        save_path: None,
        resume_from_chunk: Some(1),
    });
    assert_eq!(s.on_response(&resp).ok(), Some(4));
    let r = s.next_read().unwrap();
    assert_eq!((r.index, r.offset, r.len), (1, 4, 4));
    let out = s.take_chunk(vec![0; 4]);
    assert_eq!(out.index, 1);
    assert_eq!(out.delay_micros, 1);
    let r = s.next_read().unwrap();
    assert_eq!((r.index, r.offset, r.len), (2, 8, 2));
    let _ = s.take_chunk(vec![0; 2]);
    assert!(s.next_read().is_none());

    let mut t = SendSession::new("f.bin", 10, 4, false, 0);
    let refused = Message::TransferResponse(TransferResponse {
        file_id: "x".to_string(),
        accepted: false,
        save_path: None,
        resume_from_chunk: None,
    });
    match t.on_response(&refused) {
        Err(SendError::Rejected) => {}
        _ => panic!("expected refusal"),
    }
    assert_eq!(SendError::Rejected.message(), "Transfer rejected by receiver");
    let err = Message::TransferError(TransferError { file_id: "x".to_string(), error: "boom".to_string() });
    match SendSession::on_final_reply(&err) {
        Err(e) => assert_eq!(e.message(), "Receiver error: boom"),
        Ok(()) => panic!("expected error"),
    }
    assert!(SendSession::on_final_reply(&refused).is_ok());
}

#[test]
fn pacing_and_streams() {
    assert_eq!(pacing_delay_micros(1_048_576, 1_048_576), 1_000_000);
    assert_eq!(pacing_delay_micros(500, 0), 0);
    assert_eq!(stream_count_for(4, 8 * 1024 * 1024), 4);
    assert_eq!(stream_count_for(4, 8 * 1024 * 1024 - 1), 1);
    assert_eq!(stream_count_for(1, u64::MAX), 1);
    let r = stream_ranges(10, 4);
    let pairs: Vec<(u32, u32)> = r.iter().map(|c| (c.start, c.end)).collect();
    assert_eq!(pairs, vec![(0, 3), (3, 6), (6, 9), (9, 10)]);
    let r = stream_ranges(2, 4);
    let pairs: Vec<(u32, u32)> = r.iter().map(|c| (c.start, c.end)).collect();
    assert_eq!(pairs, vec![(0, 1), (1, 2)]);
    assert!(stream_ranges(0, 3).is_empty());
}

fn entry(path: &str, size: u64, is_dir: bool) -> FileEntry {
    FileEntry { relative_path: path.to_string(), size, is_dir }
}

#[test]
fn folder_totals() {
    let entries = vec![entry("a", 10, false), entry("sub", 0, true), entry("sub/b", 5, false)];
    assert_eq!(calculate_total_size(&entries), 15);
    assert_eq!(count_files(&entries), 2);
    let plan = plan_folder("/home/u/photos", &entries, 4).unwrap();
    assert_eq!(plan.folder_name, "photos");
    assert_eq!(plan.display_name, "photos/");
    assert_eq!(plan.files.len(), 2);
    assert_eq!(plan.total_size, 15);
    assert_eq!(plan.total_chunks, 5);
    assert!(plan_folder("/x", &vec![entry("d", 0, true)], 4).is_none());
    let f = folder_file("/home/u/photos", "photos", &entry("sub\\b", 5, false));
    assert_eq!(f.current_name, "sub/b");
    assert_eq!(f.relative_path, "photos/sub/b");
    assert_eq!(f.source_path, "/home/u/photos/sub\\b");
}

fn record(id: &str, direction: &str, status: &str, path: Option<&str>) -> TransferRecord {
    TransferRecord {
        id: id.to_string(),
        file_name: format!("{}.bin", id),
        file_size: 1,
        direction: direction.to_string(),
        status: status.to_string(),
        error: None,
        timestamp: 7,
        elapsed_secs: 0,
        save_path: path.map(|p| p.to_string()),
        transfer_method: None,
    }
}

#[test]
fn history_keeps_newest_two_hundred() {
    let mut records: Vec<TransferRecord> = Vec::new();
    for i in 0..205 {
        HistoryStore::add_record(&mut records, record(&format!("r{}", i), "send", "completed", None));
    }
    assert_eq!(records.len(), MAX_RECORDS);
    assert_eq!(records[0].id, "r204");
    assert_eq!(records[199].id, "r5");
    let c = completed_record("id".to_string(), "n".to_string(), 3, "receive", 9, 1, None, None);
    assert_eq!(c.status, "completed");
    assert_eq!(HistoryStore::new("/d").path(), "/d/transfer_history.json");
}

fn share(id: &str, md5: Option<&str>, tags: &[&str]) -> ShareEntry {
    ShareEntry {
        record_id: id.to_string(),
        file_name: "f".to_string(),
        file_size: 1,
        save_path: format!("/p/{}", id),
        file_md5: md5.map(|m| m.to_string()),
        tags: tags.iter().map(|t| t.to_string()).collect(),
        remark: String::new(),
        excluded: false,
        download_count: 0,
        timestamp: 0,
    }
}

#[test]
fn share_entries_merge_by_digest() {
    let mut entries = Vec::new();
    ShareStore::upsert_entry(&mut entries, share("a", Some("h1"), &["x"]));
    ShareStore::upsert_entry(&mut entries, share("b", None, &["y"]));
    assert_eq!(entries.len(), 2);
    assert_eq!(entries[0].record_id, "b");
    ShareStore::upsert_entry(&mut entries, share("c", Some("h1"), &["x", "z"]));
    assert_eq!(entries.len(), 2);
    assert_eq!(entries[1].tags, vec!["x".to_string(), "z".to_string()]);
    ShareStore::upsert_entry(&mut entries, share("b", None, &["w"]));
    assert_eq!(entries[0].tags, vec!["w".to_string()]);

    ShareStore::update_md5(&mut entries, "b", "h1".to_string());
    assert_eq!(entries.len(), 1);
    assert_eq!(entries[0].record_id, "a");
    assert_eq!(entries[0].tags, vec!["x".to_string(), "z".to_string(), "w".to_string()]);
    ShareStore::update_md5(&mut entries, "a", "h2".to_string());
    assert_eq!(entries[0].file_md5, Some("h2".to_string()));
    ShareStore::upsert_entry(&mut entries, share("b", None, &["w"]));
    ShareStore::set_excluded(&mut entries, "b", true);
    assert_eq!(ShareStore::get_shared_entries(&entries).len(), 1);

    ShareStore::set_excluded(&mut entries, "b", false);
    ShareStore::update_remark(&mut entries, "b", "note".to_string());
    ShareStore::update_tags(&mut entries, "b", vec!["t".to_string()]);
    ShareStore::increment_download_count(&mut entries, "b");
    assert!(!entries[0].excluded);
    assert_eq!(entries[0].remark, "note");
    assert_eq!(entries[0].download_count, 1);
    entries[0].download_count = u32::MAX;
    ShareStore::increment_download_count(&mut entries, "b");
    assert_eq!(entries[0].download_count, u32::MAX);
    ShareStore::remove_entry(&mut entries, "b");
    assert_eq!(entries.len(), 1);
}

#[test]
fn share_sync_follows_history() {
    let entries = vec![share("keep", None, &[]), share("gone", None, &[]), share("nofile", None, &[])];
    let records = vec![
        record("keep", "receive", "completed", Some("/p/keep")),
        record("nofile", "receive", "completed", Some("/p/nofile")),
        record("new", "receive", "completed", Some("/p/new")),
        record("sent", "send", "completed", Some("/p/sent")),
        record("failed", "receive", "error", Some("/p/failed")),
    ];
    let out = ShareStore::sync_from_history(
        &entries,
        &vec![true, true, false],
        &records,
        &vec![true, false, true, true, true],
        "me",
    );
    let ids: Vec<&str> = out.iter().map(|e| e.record_id.as_str()).collect();
    assert_eq!(ids, vec!["new", "keep"]);
    assert_eq!(out[0].tags, vec!["me".to_string()]);
}

#[test]
fn bookmarks() {
    let b = |id: &str| BookmarkEntry {
        id: id.to_string(),
        file_id: "f".to_string(),
        file_name: "n".to_string(),
        file_size: 1,
        file_md5: None,
        tags: Vec::new(),
        remark: String::new(),
        source_instance_id: "s".to_string(),
        source_instance_name: "s".to_string(),
        source_transfer_addr: "1.2.3.4:5".to_string(),
        require_confirm: false,
        bookmarked_at: 0,
    };
    let mut v = Vec::new();
    BookmarkStore::add_bookmark(&mut v, b("1"));
    BookmarkStore::add_bookmark(&mut v, b("2"));
    assert_eq!(v[0].id, "2");
    BookmarkStore::remove_bookmark(&mut v, "2");
    assert_eq!(v.len(), 1);
    assert_eq!(BookmarkStore::new("/d").path(), "/d/share_bookmarks.json");
    assert_eq!(ShareStore::new("/d").path(), "/d/share_entries.json");
}

#[test]
fn task_queue_lifecycle() {
    let mut q = TaskQueue::new(1);
    let t1 = TransferTask::new("f1".to_string(), "a".to_string(), 1, "dev".to_string());
    let t2 = TransferTask::new("f2".to_string(), "b".to_string(), 2, "dev".to_string());
    let id1 = t1.task_id.clone();
    let id2 = t2.task_id.clone();
    assert_ne!(id1, id2);
    q.add_task(t1);
    q.add_task(t2);
    assert!(q.can_start_new());
    let started = q.get_next_pending().unwrap();
    assert_eq!(started.task_id, id1);
    assert_eq!(started.status, TaskStatus::InProgress);
    assert_eq!(q.active_count(), 1);
    assert!(!q.can_start_new());
    q.update_task_progress(&id1, 0.5f64.to_bits());
    assert_eq!(f64::from_bits(q.get_task(&id1).unwrap().progress_bits), 0.5);
    q.complete_task(&id1);
    assert_eq!(q.get_task(&id1).unwrap().progress_bits, PROGRESS_DONE_BITS);
    assert_eq!(f64::from_bits(PROGRESS_DONE_BITS), 1.0);
    q.fail_task(&id2, "no".to_string());
    assert_eq!(q.get_task(&id2).unwrap().status, TaskStatus::Failed);
    assert!(q.get_next_pending().is_none());
    q.cancel_task(&id2);
    assert_eq!(q.list_tasks()[1].status, TaskStatus::Cancelled);
}

#[test]
fn test_progress_tracker() {
    let mut tracker = ProgressTracker::new();
    tracker.start_transfer("test-file-1".to_string(), "test.txt".to_string(), 1000, 10, "send".to_string(), 0);
    let progress = tracker.get_progress("test-file-1");
    assert!(progress.is_some());
    let progress = progress.unwrap();
    assert_eq!(progress.file_id, "test-file-1");
    assert_eq!(progress.file_name, "test.txt");
    assert_eq!(progress.total_size, 1000);
    assert_eq!(progress.total_chunks, 10);

    tracker.update_progress("test-file-1", 100, 5);
    let progress = tracker.get_progress("test-file-1").unwrap();
    assert_eq!(progress.transferred, 100);
    assert_eq!(progress.completed_chunks, 1);

    tracker.remove_progress("test-file-1");
    assert!(tracker.get_progress("test-file-1").is_none());
}

#[test]
fn progress_listing_hides_loopback_receives() {
    let mut t = ProgressTracker::new();
    t.start_transfer("abc".to_string(), "f".to_string(), 1, 1, "send".to_string(), 0);
    t.start_transfer("recv:abc".to_string(), "f".to_string(), 1, 1, "receive".to_string(), 0);
    t.register_pending_confirm("recv:zzz".to_string(), "g".to_string(), 1, 0);
    let ids: Vec<String> = t.list_all().into_iter().map(|p| p.file_id).collect();
    assert_eq!(ids, vec!["abc".to_string(), "recv:zzz".to_string()]);
    assert!(t.try_update_progress("abc", u64::MAX - 1, 1));
    assert!(!t.try_update_progress("abc", 10, 1));
}

#[test]
fn pause_cancel_controls() {
    let mut t = ProgressTracker::new();
    let mut c = TransferControl::new();
    t.start_transfer("a".to_string(), "f".to_string(), 1, 1, "send".to_string(), 0);
    t.start_transfer("b".to_string(), "g".to_string(), 1, 1, "receive".to_string(), 0);
    t.register_queued("q".to_string(), "h".to_string(), 1, 1, "send".to_string(), 0);
    c.pause_all(&mut t);
    assert!(c.is_paused("a"));
    assert!(!c.is_paused("b"));
    assert!(!c.is_paused("q"));
    assert!(t.get_progress("a").unwrap().paused);
    assert!(!t.get_progress("b").unwrap().paused);
    c.resume_all(&mut t);
    assert!(!c.is_paused("a"));
    assert!(!t.get_progress("a").unwrap().paused);
    t.set_error("b", "bad".to_string());
    c.cancel_transfer(&mut t, "b");
    assert!(t.get_progress("b").is_none());
    assert!(!c.is_cancelled("b"));
    c.cancel_transfer(&mut t, "a");
    assert!(c.is_cancelled("a"));
    c.clear_cancelled("a");
    assert!(!c.is_cancelled("a"));
}

#[test]
fn durations() {
    assert_eq!(format_duration(59), "59s");
    assert_eq!(format_duration(61), "1m 1s");
    assert_eq!(format_duration(3725), "1h 2m");
}

#[test]
fn sender_resumes_at_the_receivers_chunk() {
    let mut s = SendSession::new("big.bin", 100, 10, false, 0);
    let answer = acceptance(s.file_id(), "/dl", 7);
    assert_eq!(s.on_response(&answer).ok(), Some(70));
    assert_eq!(s.next_read().unwrap().index, 7);
    let mut fresh = SendSession::new("big.bin", 100, 10, false, 0);
    assert_eq!(fresh.on_response(&acceptance(fresh.file_id(), "/dl", 0)).ok(), Some(0));
    assert_eq!(fresh.next_read().unwrap().index, 0);
}

#[test]
fn chunk_checksum_is_crc32() {
    assert_eq!(calculate_chunk_checksum(b"123456789"), 0xCBF43926);
    assert_eq!(calculate_chunk_checksum(b""), 0);
}

#[test]
fn history_records_can_be_deleted() {
    let mut records: Vec<TransferRecord> = Vec::new();
    for id in ["c", "b", "a"] {
        HistoryStore::add_record(&mut records, completed_record(id.to_string(), format!("{}.txt", id), 1, "send", 0, 0, None, None));
    }
    HistoryStore::delete_record(&mut records, "b");
    let ids: Vec<&str> = records.iter().map(|r| r.id.as_str()).collect();
    assert_eq!(ids, vec!["a", "c"]);
    HistoryStore::delete_records(&mut records, &["a".to_string(), "zz".to_string()]);
    let ids: Vec<&str> = records.iter().map(|r| r.id.as_str()).collect();
    assert_eq!(ids, vec!["c"]);
    HistoryStore::delete_record(&mut records, "missing");
    assert_eq!(records.len(), 1);
}

#[test]
fn refused_receive_leaves_no_trace() {
    let req = request("a.bin", 6, 4);
    let mut books = TransferBooks::new(Vec::new());
    books.receive_awaits_confirmation(&req, 1_000);
    let waiting = books.progress().get_progress("recv:fid").unwrap();
    assert_eq!(waiting.status, "pending_confirm");
    match books.receive_answered(&req, false) {
        ReceiveStart::Refuse(Message::TransferResponse(r)) => {
            assert_eq!(r.file_id, "fid");
            assert!(!r.accepted);
            assert!(r.save_path.is_none());
        }
        _ => panic!("expected a refusal"),
    }
    assert!(books.progress().get_progress("recv:fid").is_none());
    assert!(books.history().is_empty());
}

#[test]
fn completed_receive_is_recorded_first() {
    let req = request("a.bin", 6, 4);
    let mut books = TransferBooks::new(Vec::new());
    books.send_queued("other", "o.bin", 1, 1, 0);
    books.send_completed("other", "o.bin", 1, "/src/o.bin", "lan", "r0".to_string(), 50, 3_000);
    books.receive_awaits_confirmation(&req, 1_000);
    assert!(matches!(books.receive_answered(&req, true), ReceiveStart::Proceed));
    books.receive_started(&req, 2_000);
    assert_eq!(books.progress().get_progress(&recv_progress_id("fid")).unwrap().total_chunks, 2);
    books.receive_completed(&req, "/dl", "lan", "r1".to_string(), 99, 7_500);
    assert!(books.progress().get_progress("recv:fid").is_none());
    let h = books.history();
    assert_eq!(h.len(), 2);
    assert_eq!(h[0].id, "r1");
    assert_eq!(h[0].direction, "receive");
    assert_eq!(h[0].status, "completed");
    assert_eq!(h[0].elapsed_secs, 5);
    assert_eq!(h[0].save_path.as_deref(), Some("/dl/a.bin"));
    assert_eq!(h[0].transfer_method.as_deref(), Some("lan"));
    assert_eq!(h[1].direction, "send");
    assert_eq!(h[1].elapsed_secs, 3);
}

#[test]
fn refused_send_leaves_no_trace() {
    let mut books = TransferBooks::new(Vec::new());
    books.send_queued("fid", "a.bin", 6, 2, 0);
    assert_eq!(books.progress().get_progress("fid").unwrap().status, "queued");
    books.send_failed("fid");
    assert!(books.progress().get_progress("fid").is_none());
    assert!(books.history().is_empty());
}

#[test]
fn cancelled_and_paused_transfers_stop_and_wait() {
    let mut books = TransferBooks::new(Vec::new());
    books.send_queued("fid", "a.bin", 6, 2, 0);
    assert_eq!(books.before_chunk("fid"), ChunkGo::Go);
    books.pause_transfer("fid");
    assert!(books.progress().get_progress("fid").unwrap().paused);
    assert_eq!(books.before_chunk("fid"), ChunkGo::Wait);
    books.resume_transfer("fid");
    assert_eq!(books.before_chunk("fid"), ChunkGo::Go);
    books.cancel_transfer("fid");
    assert_eq!(books.before_chunk("fid"), ChunkGo::Stop);
    assert!(books.progress().get_progress("fid").is_none());
    assert!(books.history().is_empty());
    assert_eq!(books.before_chunk("fid"), ChunkGo::Go);
}
