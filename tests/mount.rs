use cliprdr_fuse::message::{
    file_contents_fail_response, format_list, get_local_format, remote_format_map, ClipboardFile, CB_RESPONSE_FAIL,
    FILECONTENTS_FORMAT_ID, FILEDESCRIPTOR_FORMAT_ID,
};
use cliprdr_fuse::registry::Registry;
use cliprdr_fuse::mount::{
    is_mount_point_in_table, mount_attempt_step, retry_delay_ms, try_next_unmount, unmount_commands, MountStep,
    MAX_MOUNT_ATTEMPTS,
};

/// Runs the retry loop over the given attempt outcomes; gives the delays
/// waited and whether the last step mounted.
fn run_mount(outcomes: &[bool]) -> (Vec<u64>, MountStep) {
    let mut delays = Vec::new();
    let mut last = MountStep::GiveUp;
    for attempt in 1..=MAX_MOUNT_ATTEMPTS {
        last = mount_attempt_step(attempt, outcomes[(attempt - 1) as usize]);
        match last {
            MountStep::Retry { delay_ms } => delays.push(delay_ms),
            _ => break,
        }
    }
    (delays, last)
}

#[test]
fn mount_succeeds_on_third_attempt_after_two_backoffs() {
    let (delays, last) = run_mount(&[false, false, true]);
    assert_eq!(delays, vec![100, 200]);
    assert_eq!(last, MountStep::Mounted);
}

#[test]
fn mount_first_attempt_needs_no_delay() {
    let (delays, last) = run_mount(&[true, false, false]);
    assert!(delays.is_empty());
    assert_eq!(last, MountStep::Mounted);
}

#[test]
fn mount_gives_up_after_three_failures() {
    let (delays, last) = run_mount(&[false, false, false]);
    assert_eq!(delays, vec![100, 200]);
    assert_eq!(last, MountStep::GiveUp);
}

#[test]
fn backoff_doubles() {
    assert_eq!(retry_delay_ms(1), 100);
    assert_eq!(retry_delay_ms(2), 200);
}

#[test]
fn unmount_fallback_chain() {
    let cmds = unmount_commands("/tmp/app/cliprdr-client");
    assert_eq!(cmds, vec![
        vec!["fusermount".to_string(), "-u".to_string(), "/tmp/app/cliprdr-client".to_string()],
        vec!["fusermount3".to_string(), "-u".to_string(), "/tmp/app/cliprdr-client".to_string()],
        vec!["umount".to_string(), "/tmp/app/cliprdr-client".to_string()],
    ]);
}

#[test]
fn mounts_table_lookup() {
    let table = "proc /proc proc rw 0 0\nrustdesk-cliprdr-fs /tmp/app/cliprdr-client fuse ro 0 0\n\n";
    assert!(is_mount_point_in_table(table, "/tmp/app/cliprdr-client"));
    assert!(!is_mount_point_in_table(table, "/tmp/app/cliprdr-server"));
    assert!(!is_mount_point_in_table(table, "proc"));
    assert!(!is_mount_point_in_table("", "/"));
    assert!(is_mount_point_in_table("a\t  /x y\r\n", "/x"));
    assert!(is_mount_point_in_table("a\u{0B}b c", "b"));
    assert!(is_mount_point_in_table("a\u{0C}b c", "b"));
    assert!(is_mount_point_in_table("a\u{A0}b\u{3000}c", "b"));
    assert!(is_mount_point_in_table("a b\u{0B}c", "b"));
    assert!(!is_mount_point_in_table("a b\u{0B}c", "b\u{0B}c"));
}

#[test]
fn local_format_names() {
    let m = remote_format_map();
    assert_eq!(get_local_format(&m, FILEDESCRIPTOR_FORMAT_ID), Some("FileGroupDescriptorW".to_string()));
    assert_eq!(get_local_format(&m, FILECONTENTS_FORMAT_ID), Some("FileContents".to_string()));
    assert_eq!(get_local_format(&m, 1), None);
    let reg = Registry::new("app");
    assert_eq!(get_local_format(&reg.formats, 49267), Some("FileContents".to_string()));
}

#[test]
fn format_list_announces_files() {
    match format_list(&remote_format_map()) {
        ClipboardFile::FormatList { format_list } => assert_eq!(format_list, vec![
            (49334, "FileGroupDescriptorW".to_string()),
            (49267, "FileContents".to_string()),
        ]),
        _ => panic!("not a format list"),
    }
}

#[test]
fn fail_response_shape() {
    match file_contents_fail_response(9) {
        ClipboardFile::FileContentsResponse { msg_flags, stream_id, requested_data } => {
            assert_eq!(msg_flags, CB_RESPONSE_FAIL);
            assert_eq!(stream_id, 9);
            assert!(requested_data.is_empty());
        }
        _ => panic!("not a response"),
    }
}

#[test]
fn unmount_chain_stops_at_first_success() {
    assert!(!try_next_unmount(0, true));
    assert!(try_next_unmount(0, false));
    assert!(try_next_unmount(1, false));
    assert!(!try_next_unmount(2, false));
}
