use cliprdr_fuse::descriptor::{parse_file_descriptors, LDAP_EPOCH_DELTA, RECORD_SIZE};
use cliprdr_fuse::error::CliprdrError;

const FLAGS_ALL: u32 = 0x04 | 0x20 | 0x80;

fn record(flags: u32, attributes: u32, write_time: u64, size: u64, name: &[u16]) -> Vec<u8> {
    let mut r = vec![0u8; RECORD_SIZE];
    r[0..4].copy_from_slice(&flags.to_le_bytes());
    r[36..40].copy_from_slice(&attributes.to_le_bytes());
    r[56..64].copy_from_slice(&write_time.to_le_bytes());
    r[64..68].copy_from_slice(&((size >> 32) as u32).to_le_bytes());
    r[68..72].copy_from_slice(&(size as u32).to_le_bytes());
    for (k, u) in name.iter().enumerate() {
        r[72 + 2 * k..74 + 2 * k].copy_from_slice(&u.to_le_bytes());
    }
    r
}

fn utf16(s: &str) -> Vec<u16> {
    s.encode_utf16().collect()
}

fn payload(records: &[Vec<u8>]) -> Vec<u8> {
    let mut p = (records.len() as u32).to_le_bytes().to_vec();
    for r in records {
        p.extend_from_slice(r);
    }
    p
}

#[test]
fn parse_empty_payload_is_empty_list() {
    let files = parse_file_descriptors(payload(&[]), 7).unwrap();
    assert!(files.is_empty());
}

#[test]
fn parse_rejects_short_payload() {
    assert!(matches!(parse_file_descriptors(vec![0, 0, 0], 1), Err(CliprdrError::InvalidRequest)));
    assert!(matches!(parse_file_descriptors(vec![], 1), Err(CliprdrError::InvalidRequest)));
}

#[test]
fn parse_rejects_truncated_record() {
    let mut p = payload(&[record(FLAGS_ALL, 0, 0, 1, &utf16("x"))]);
    p.pop();
    assert!(matches!(parse_file_descriptors(p, 1), Err(CliprdrError::InvalidRequest)));
}

#[test]
fn parse_rejects_count_mismatch() {
    let mut p = payload(&[record(FLAGS_ALL, 0, 0, 1, &utf16("x"))]);
    p[0] = 2;
    assert!(matches!(parse_file_descriptors(p, 1), Err(CliprdrError::InvalidRequest)));
}

#[test]
fn parse_one_file_record() {
    let t = LDAP_EPOCH_DELTA + 12345;
    let p = payload(&[record(FLAGS_ALL, 0, t, 10, &utf16("a/b.txt"))]);
    let files = parse_file_descriptors(p, 42).unwrap();
    assert_eq!(files.len(), 1);
    let d = &files[0];
    assert_eq!(d.segments, vec!["a".to_string(), "b.txt".to_string()]);
    assert!(!d.is_dir);
    assert_eq!(d.size, 10);
    assert_eq!(d.modified, 12345);
    assert_eq!(d.index, 0);
    assert_eq!(d.conn_id, 42);
}

#[test]
fn parse_directory_and_backslashes() {
    let p = payload(&[
        record(FLAGS_ALL, 0x10, 0, 99, &utf16("dir")),
        record(FLAGS_ALL, 0, 0, 3, &utf16("dir\\sub\\\\x.txt")),
    ]);
    let files = parse_file_descriptors(p, 1).unwrap();
    assert!(files[0].is_dir);
    assert_eq!(files[1].segments, vec!["dir".to_string(), "sub".to_string(), "x.txt".to_string()]);
    assert_eq!(files[1].index, 1);
}

#[test]
fn parse_size_from_high_and_low_words() {
    let size = (1u64 << 32) + 2;
    let p = payload(&[record(FLAGS_ALL, 0, 0, size, &utf16("big"))]);
    assert_eq!(parse_file_descriptors(p, 1).unwrap()[0].size, 4294967298);
}

#[test]
fn parse_undeclared_size_and_time_are_zero() {
    let p = payload(&[record(0x04, 0, LDAP_EPOCH_DELTA + 5, 77, &utf16("f"))]);
    let d = &parse_file_descriptors(p, 1).unwrap()[0];
    assert_eq!(d.size, 0);
    assert_eq!(d.modified, 0);
}

#[test]
fn parse_time_before_unix_epoch_is_zero() {
    let p = payload(&[record(FLAGS_ALL, 0, LDAP_EPOCH_DELTA - 1, 1, &utf16("f"))]);
    assert_eq!(parse_file_descriptors(p, 1).unwrap()[0].modified, 0);
}

#[test]
fn parse_rejects_record_without_attributes_flag() {
    let p = payload(&[record(FLAGS_ALL, 0, 0, 1, &utf16("ok")), record(0x80, 0, 0, 1, &utf16("bad"))]);
    assert!(matches!(parse_file_descriptors(p, 1), Err(CliprdrError::InvalidRequest)));
}

#[test]
fn parse_rejects_empty_name() {
    let p = payload(&[record(FLAGS_ALL, 0, 0, 1, &utf16("//"))]);
    assert!(matches!(parse_file_descriptors(p, 1), Err(CliprdrError::InvalidRequest)));
}

#[test]
fn parse_rejects_unpaired_surrogate() {
    let p = payload(&[record(FLAGS_ALL, 0, 0, 1, &[0x61, 0xD800, 0x62])]);
    assert!(matches!(parse_file_descriptors(p, 1), Err(CliprdrError::InvalidRequest)));
}

#[test]
fn parse_decodes_utf16_names() {
    let p = payload(&[record(FLAGS_ALL, 0, 0, 1, &utf16("d\u{e9}j\u{e0}/\u{1F600}.txt"))]);
    let d = &parse_file_descriptors(p, 1).unwrap()[0];
    assert_eq!(d.segments, vec!["d\u{e9}j\u{e0}".to_string(), "\u{1F600}.txt".to_string()]);
}

#[test]
fn parse_name_stops_at_nul() {
    let mut name = utf16("keep");
    name.push(0);
    name.extend(utf16("drop"));
    let p = payload(&[record(FLAGS_ALL, 0, 0, 1, &name)]);
    assert_eq!(parse_file_descriptors(p, 1).unwrap()[0].segments, vec!["keep".to_string()]);
}

#[test]
fn parse_full_width_name_without_nul() {
    let name: Vec<u16> = std::iter::repeat(0x61).take(260).collect();
    let p = payload(&[record(FLAGS_ALL, 0, 0, 1, &name)]);
    assert_eq!(parse_file_descriptors(p, 1).unwrap()[0].segments[0].len(), 260);
}

#[test]
fn parse_converts_1601_epoch_to_unix_epoch() {
    assert_eq!(LDAP_EPOCH_DELTA, 116444736000000000);
    let p = payload(&[record(FLAGS_ALL, 0, 116444736000000000 + 10_000_000, 1, &utf16("f"))]);
    assert_eq!(parse_file_descriptors(p, 1).unwrap()[0].modified, 10_000_000);
}
