use cliprdr_fuse::descriptor::FileDescriptor;
use cliprdr_fuse::engine::{PendingState, PendingTable, BLOCK_SIZE, FUSE_TIMEOUT_MS};
use cliprdr_fuse::error::CliprdrError;
use cliprdr_fuse::message::{ClipboardFile, CB_RESPONSE_FAIL, CB_RESPONSE_OK, FILECONTENTS_RANGE};
use cliprdr_fuse::tree::FsTree;

fn desc(path: &str, size: u64, index: usize) -> FileDescriptor {
    FileDescriptor {
        conn_id: 1,
        segments: path.split('/').map(|s| s.to_string()).collect(),
        is_dir: false,
        size,
        modified: 0,
        index,
    }
}

fn request_of(m: Option<ClipboardFile>) -> (i32, i32, i32, u64, u64) {
    match m {
        Some(ClipboardFile::FileContentsRequest { stream_id, list_index, dw_flags, position, requested_size }) => {
            (stream_id, list_index, dw_flags, position, requested_size)
        }
        _ => panic!("no content request"),
    }
}

fn file_id(t: &FsTree, path: &[&str]) -> usize {
    let mut id = 0;
    for p in path {
        id = t.lookup(id, &p.to_string()).unwrap();
    }
    id
}

#[test]
fn read_whole_small_file() {
    let t = FsTree::build(vec![desc("a/b.txt", 10, 0)], 0);
    let b = file_id(&t, &["a", "b.txt"]);
    let mut p = PendingTable::new();
    let (sid, idx, flags, pos, len) = request_of(p.start_read(&t, b, 0, 10, 1000).unwrap());
    assert_eq!((sid, idx, flags, pos, len), (1, 0, FILECONTENTS_RANGE, 0, 10));
    assert_eq!(p.poll(sid, 1001), None);
    let data: Vec<u8> = (0..10).collect();
    assert!(p.fulfill(sid, CB_RESPONSE_OK, data.clone(), 1002));
    assert_eq!(p.poll(sid, 1003), Some(Ok(data)));
    assert!(p.reads.is_empty());
}

#[test]
fn read_short_response_is_not_an_error() {
    let t = FsTree::build(vec![desc("a/b.txt", 10, 0)], 0);
    let b = file_id(&t, &["a", "b.txt"]);
    let mut p = PendingTable::new();
    let (sid, ..) = request_of(p.start_read(&t, b, 0, 10, 0).unwrap());
    assert!(p.fulfill(sid, CB_RESPONSE_OK, vec![1, 2, 3, 4, 5], 1));
    assert_eq!(p.poll(sid, 2), Some(Ok(vec![1, 2, 3, 4, 5])));
    let (sid2, _, _, pos2, len2) = request_of(p.start_read(&t, b, 5, 5, 3).unwrap());
    assert_eq!(sid2, 2);
    assert_eq!((pos2, len2), (5, 5));
}

#[test]
fn read_takes_wanted_length_of_block_response() {
    let t = FsTree::build(vec![desc("f", 10, 0)], 0);
    let f = file_id(&t, &["f"]);
    let mut p = PendingTable::new();
    let (sid, _, _, pos, len) = request_of(p.start_read(&t, f, 3, 4, 0).unwrap());
    assert_eq!((pos, len), (3, 7));
    assert!(p.fulfill(sid, CB_RESPONSE_OK, (3..10).collect(), 1));
    assert_eq!(p.poll(sid, 1), Some(Ok(vec![3, 4, 5, 6])));
}

#[test]
fn read_range_clamped_to_file_size() {
    let t = FsTree::build(vec![desc("f", 10, 0)], 0);
    let f = file_id(&t, &["f"]);
    let mut p = PendingTable::new();
    let (sid, _, _, pos, len) = request_of(p.start_read(&t, f, 8, 100, 0).unwrap());
    assert_eq!((pos, len), (8, 2));
    assert_eq!(p.reads[0].offset, 8);
    assert_eq!(p.reads[0].length, 2);
    assert!(p.fulfill(sid, CB_RESPONSE_OK, vec![8, 9], 1));
    assert_eq!(p.poll(sid, 1), Some(Ok(vec![8, 9])));
    assert!(matches!(p.start_read(&t, f, 10, 5, 0), Ok(None)));
    assert!(matches!(p.start_read(&t, f, 3, 0, 0), Ok(None)));
    assert!(p.reads.is_empty());
}

#[test]
fn read_request_length_rounded_to_block() {
    let size = 3 * BLOCK_SIZE;
    let t = FsTree::build(vec![desc("big", size, 0)], 0);
    let f = file_id(&t, &["big"]);
    let mut p = PendingTable::new();
    let (_, _, _, pos, len) = request_of(p.start_read(&t, f, BLOCK_SIZE + 100, 50, 0).unwrap());
    assert_eq!(pos, BLOCK_SIZE + 100);
    assert_eq!(len, BLOCK_SIZE);
    let (_, _, _, pos2, len2) = request_of(p.start_read(&t, f, 2 * BLOCK_SIZE + 1, BLOCK_SIZE, 0).unwrap());
    assert_eq!(pos2, 2 * BLOCK_SIZE + 1);
    assert_eq!(len2, BLOCK_SIZE - 1);
    let (_, _, _, pos3, len3) = request_of(p.start_read(&t, f, 0, BLOCK_SIZE + 1, 0).unwrap());
    assert_eq!((pos3, len3), (0, 2 * BLOCK_SIZE));
}

#[test]
fn read_short_response_at_offset_is_returned() {
    let t = FsTree::build(vec![desc("f", 10, 0)], 0);
    let f = file_id(&t, &["f"]);
    let mut p = PendingTable::new();
    let (sid, ..) = request_of(p.start_read(&t, f, 6, 4, 0).unwrap());
    assert!(p.fulfill(sid, CB_RESPONSE_OK, vec![1, 2], 1));
    assert_eq!(p.poll(sid, 1), Some(Ok(vec![1, 2])));
    let (sid2, ..) = request_of(p.start_read(&t, f, 6, 4, 2).unwrap());
    assert!(p.fulfill(sid2, CB_RESPONSE_OK, vec![], 3));
    assert_eq!(p.poll(sid2, 3), Some(Ok(vec![])));
}

#[test]
fn read_of_directory_fails() {
    let t = FsTree::build(vec![desc("a/b", 10, 0)], 0);
    let mut p = PendingTable::new();
    let a = file_id(&t, &["a"]);
    assert!(matches!(p.start_read(&t, a, 0, 1, 0), Err(CliprdrError::IsDirectory)));
    assert!(matches!(p.start_read(&t, 0, 0, 1, 0), Err(CliprdrError::IsDirectory)));
    assert!(matches!(p.start_read(&t, 77, 0, 1, 0), Err(CliprdrError::NotFound)));
}

#[test]
fn read_times_out_after_deadline() {
    let t = FsTree::build(vec![desc("f", 10, 0)], 0);
    let f = file_id(&t, &["f"]);
    let mut p = PendingTable::new();
    let (sid, ..) = request_of(p.start_read(&t, f, 0, 10, 500).unwrap());
    assert_eq!(p.reads[0].deadline, 500 + FUSE_TIMEOUT_MS);
    assert_eq!(p.poll(sid, 3499), None);
    assert_eq!(p.poll(sid, 3500), Some(Err(CliprdrError::IoTimeout)));
    assert!(!p.fulfill(sid, CB_RESPONSE_OK, vec![1], 3600));
    assert_eq!(p.poll(sid, 3600), Some(Err(CliprdrError::NotFound)));
}

#[test]
fn late_response_after_deadline_is_dropped() {
    let t = FsTree::build(vec![desc("f", 10, 0)], 0);
    let f = file_id(&t, &["f"]);
    let mut p = PendingTable::new();
    let (sid, ..) = request_of(p.start_read(&t, f, 0, 10, 0).unwrap());
    assert!(!p.fulfill(sid, CB_RESPONSE_OK, vec![1, 2, 3], FUSE_TIMEOUT_MS));
    assert!(matches!(p.reads[0].state, PendingState::Waiting));
    assert_eq!(p.poll(sid, FUSE_TIMEOUT_MS), Some(Err(CliprdrError::IoTimeout)));
}

#[test]
fn duplicate_response_is_dropped() {
    let t = FsTree::build(vec![desc("f", 10, 0)], 0);
    let f = file_id(&t, &["f"]);
    let mut p = PendingTable::new();
    let (sid, ..) = request_of(p.start_read(&t, f, 0, 10, 0).unwrap());
    assert!(p.fulfill(sid, CB_RESPONSE_OK, vec![1, 2, 3], 1));
    assert!(!p.fulfill(sid, CB_RESPONSE_OK, vec![9, 9, 9], 2));
    assert!(!p.fulfill(999, CB_RESPONSE_OK, vec![9], 2));
    assert_eq!(p.poll(sid, 3), Some(Ok(vec![1, 2, 3])));
    assert!(!p.fulfill(sid, CB_RESPONSE_OK, vec![9, 9, 9], 4));
    assert!(p.reads.is_empty());
}

#[test]
fn disjoint_reads_complete_independently() {
    let t = FsTree::build(vec![desc("f", 2 * BLOCK_SIZE, 0)], 0);
    let f = file_id(&t, &["f"]);
    let mut p = PendingTable::new();
    let (s1, _, _, pos1, _) = request_of(p.start_read(&t, f, 0, 4, 100).unwrap());
    let (s2, _, _, pos2, _) = request_of(p.start_read(&t, f, BLOCK_SIZE, 4, 200).unwrap());
    assert_ne!(s1, s2);
    assert_eq!((pos1, pos2), (0, BLOCK_SIZE));
    assert!(p.fulfill(s2, CB_RESPONSE_OK, vec![5, 6, 7, 8], 300));
    assert!(matches!(p.reads[0].state, PendingState::Waiting));
    assert_eq!(p.reads[0].deadline, 100 + FUSE_TIMEOUT_MS);
    assert_eq!(p.poll(s1, 301), None);
    assert_eq!(p.poll(s2, 301), Some(Ok(vec![5, 6, 7, 8])));
    assert!(p.fulfill(s1, CB_RESPONSE_OK, vec![1, 2, 3, 4], 302));
    assert_eq!(p.poll(s1, 303), Some(Ok(vec![1, 2, 3, 4])));
}

#[test]
fn failed_response_fails_read() {
    let t = FsTree::build(vec![desc("f", 10, 0)], 0);
    let f = file_id(&t, &["f"]);
    let mut p = PendingTable::new();
    let (sid, ..) = request_of(p.start_read(&t, f, 0, 10, 0).unwrap());
    assert!(p.fulfill(sid, CB_RESPONSE_FAIL, vec![], 1));
    assert_eq!(p.poll(sid, 1), Some(Err(CliprdrError::FileContentsFailed)));
}

#[test]
fn invalidate_makes_waiting_reads_stale() {
    let t = FsTree::build(vec![desc("f", 10, 0)], 0);
    let f = file_id(&t, &["f"]);
    let mut p = PendingTable::new();
    let (s1, ..) = request_of(p.start_read(&t, f, 0, 10, 0).unwrap());
    let (s2, ..) = request_of(p.start_read(&t, f, 0, 10, 0).unwrap());
    assert!(p.fulfill(s2, CB_RESPONSE_OK, vec![1], 1));
    p.invalidate(1);
    assert_eq!(p.generation, 1);
    assert!(!p.fulfill(s1, CB_RESPONSE_OK, vec![1], 2));
    assert_eq!(p.poll(s1, 2), Some(Err(CliprdrError::StaleGeneration)));
    assert_eq!(p.poll(s2, 2), Some(Ok(vec![1])));
}

#[test]
fn generation_tag_wraps() {
    let mut p = PendingTable::new();
    p.generation = u64::MAX;
    p.invalidate(1);
    assert_eq!(p.generation, 0);
}

#[test]
fn stream_ids_exhausted_is_internal_error() {
    let t = FsTree::build(vec![desc("f", 10, 0)], 0);
    let f = file_id(&t, &["f"]);
    let mut p = PendingTable::new();
    p.next_stream_id = i32::MAX;
    assert!(matches!(p.start_read(&t, f, 0, 10, 0), Err(CliprdrError::ClipboardInternalError)));
    assert!(p.reads.is_empty());
}

#[test]
fn cancel_withdraws_read() {
    let t = FsTree::build(vec![desc("f", 10, 0)], 0);
    let f = file_id(&t, &["f"]);
    let mut p = PendingTable::new();
    let (s1, ..) = request_of(p.start_read(&t, f, 0, 10, 0).unwrap());
    let (s2, ..) = request_of(p.start_read(&t, f, 0, 10, 0).unwrap());
    p.cancel(s1);
    p.cancel(999);
    assert_eq!(p.reads.len(), 1);
    assert_eq!(p.reads[0].stream_id, s2);
    assert!(!p.fulfill(s1, CB_RESPONSE_OK, vec![1], 1));
    assert_eq!(p.poll(s1, 1), Some(Err(CliprdrError::NotFound)));
}

#[test]
fn responses_in_either_order_give_same_results() {
    let t = FsTree::build(vec![desc("f", 2 * BLOCK_SIZE, 0)], 0);
    let f = file_id(&t, &["f"]);
    let mut results = Vec::new();
    for first in [true, false] {
        let mut p = PendingTable::new();
        let (s1, ..) = request_of(p.start_read(&t, f, 0, 3, 0).unwrap());
        let (s2, ..) = request_of(p.start_read(&t, f, BLOCK_SIZE, 3, 0).unwrap());
        if first {
            assert!(p.fulfill(s1, CB_RESPONSE_OK, vec![1, 2, 3], 1));
            assert!(p.fulfill(s2, CB_RESPONSE_OK, vec![4, 5, 6], 1));
        } else {
            assert!(p.fulfill(s2, CB_RESPONSE_OK, vec![4, 5, 6], 1));
            assert!(p.fulfill(s1, CB_RESPONSE_OK, vec![1, 2, 3], 1));
        }
        results.push((p.poll(s1, 2), p.poll(s2, 2)));
    }
    assert_eq!(results[0], results[1]);
    assert_eq!(results[0], (Some(Ok(vec![1, 2, 3])), Some(Ok(vec![4, 5, 6]))));
}

#[test]
fn invalidate_leaves_expired_read_to_time_out() {
    let t = FsTree::build(vec![desc("f", 10, 0)], 0);
    let f = file_id(&t, &["f"]);
    let mut p = PendingTable::new();
    let (s1, ..) = request_of(p.start_read(&t, f, 0, 10, 0).unwrap());
    let (s2, ..) = request_of(p.start_read(&t, f, 0, 10, 1000).unwrap());
    p.invalidate(FUSE_TIMEOUT_MS);
    assert!(matches!(p.reads[0].state, PendingState::Waiting));
    assert!(matches!(p.reads[1].state, PendingState::Stale));
    assert_eq!(p.poll(s1, FUSE_TIMEOUT_MS + 1), Some(Err(CliprdrError::IoTimeout)));
    assert_eq!(p.poll(s2, FUSE_TIMEOUT_MS + 1), Some(Err(CliprdrError::StaleGeneration)));
}
