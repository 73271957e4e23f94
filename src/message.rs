use vstd::prelude::*;
use vstd::string::StringExecFns;
use dashmap::DashMap;

verus! {

/// Placeholder format id announcing a file descriptor list.
pub const FILEDESCRIPTOR_FORMAT_ID: i32 = 49334;
/// Placeholder format id announcing file contents.
pub const FILECONTENTS_FORMAT_ID: i32 = 49267;
/// `dwFlags` value of a content request for a byte range.
pub const FILECONTENTS_RANGE: i32 = 2;
/// `msgFlags` value of a successful response.
pub const CB_RESPONSE_OK: i32 = 1;
/// `msgFlags` value of a failed response.
pub const CB_RESPONSE_FAIL: i32 = 2;

/// Messages exchanged with the peer over the clipboard channel.
pub enum ClipboardFile {
    /// Advertises the formats available on this side.
    FormatList { format_list: Vec<(i32, String)> },
    /// Asks the peer for `requested_size` bytes at `position` of file `list_index`.
    FileContentsRequest {
        stream_id: i32,
        list_index: i32,
        dw_flags: i32,
        position: u64,
        requested_size: u64,
    },
    /// The peer's answer to the request with the same `stream_id`.
    FileContentsResponse { msg_flags: i32, stream_id: i32, requested_data: Vec<u8> },
}

#[verifier::external_type_specification]
#[verifier::external_body]
#[verifier::reject_recursive_types(K)]
#[verifier::reject_recursive_types(V)]
#[verifier::reject_recursive_types(S)]
pub struct ExDashMap<K, V, S>(DashMap<K, V, S>);

/// A map from format ids of the peer to local format names.
pub type FormatMap = DashMap<i32, String>;

/// What a format map holds: format id to local format name.
pub uninterp spec fn format_names(m: FormatMap) -> Map<i32, Seq<char>>;

pub open spec fn keys_distinct(entries: Seq<(i32, String)>) -> bool {
    forall|i: int, j: int| 0 <= i < j < entries.len() ==> (#[trigger] entries[i]).0 != (#[trigger] entries[j]).0
}

/// Relies on DashMap's `FromIterator`: a new map into which each entry is inserted in turn.
#[verifier::external_body]
fn format_map_from(entries: Vec<(i32, String)>) -> (r: FormatMap)
    requires
        keys_distinct(entries@),
    ensures
        forall|k: i32|
            (exists|i: int| 0 <= i < entries@.len() && (#[trigger] entries@[i]).0 == k) <==> format_names(r).contains_key(k),
        forall|i: int| 0 <= i < entries@.len() ==> format_names(r)[(#[trigger] entries@[i]).0] == entries@[i].1@,
{
    DashMap::from_iter(entries)
}

/// Relies on DashMap::get: the value stored under `k`, if any.
#[verifier::external_body]
fn format_map_get(m: &FormatMap, k: i32) -> (r: Option<String>)
    ensures
        r is Some <==> format_names(*m).contains_key(k),
        r matches Some(s) ==> s@ == format_names(*m)[k],
{
    m.get(&k).map(|s| s.clone())
}

/// The local names of the formats of the peer that this side handles.
pub open spec fn local_format_table() -> Map<i32, Seq<char>> {
    map![FILEDESCRIPTOR_FORMAT_ID => "FileGroupDescriptorW"@, FILECONTENTS_FORMAT_ID => "FileContents"@]
}

/// The map from format ids of the peer to local format names.
pub fn remote_format_map() -> (m: FormatMap)
    ensures
        format_names(m) == local_format_table(),
{
    let entries = vec![
        (FILEDESCRIPTOR_FORMAT_ID, String::from_str("FileGroupDescriptorW")),
        (FILECONTENTS_FORMAT_ID, String::from_str("FileContents")),
    ];
    let m = format_map_from(entries);
    assert(format_names(m) =~= local_format_table()) by {
        assert(entries@[0].0 == FILEDESCRIPTOR_FORMAT_ID);
        assert(entries@[1].0 == FILECONTENTS_FORMAT_ID);
        assert forall|k: i32| #[trigger] format_names(m).contains_key(k) <==> local_format_table().contains_key(k) by {
            if format_names(m).contains_key(k) {
                let i = choose|i: int| 0 <= i < entries@.len() && (#[trigger] entries@[i]).0 == k;
            }
        }
    }
    m
}

/// The local format name registered in `formats` for a format id of the peer.
pub fn get_local_format(formats: &FormatMap, remote_id: i32) -> (r: Option<String>)
    ensures
        r is Some <==> format_names(*formats).contains_key(remote_id),
        r matches Some(s) ==> s@ == format_names(*formats)[remote_id],
{
    format_map_get(formats, remote_id)
}

/// The name under which `id` is announced: its local name in `names`, or
/// `standard` where it has none.
pub open spec fn announced_name(names: Map<i32, Seq<char>>, id: i32, standard: Seq<char>) -> Seq<char> {
    if names.contains_key(id) {
        names[id]
    } else {
        standard
    }
}

/// The format list that announces files on this side: the descriptor format
/// first, then the contents format, each with its local name in `formats`
/// or, where it has none, its standard name.
pub fn format_list(formats: &FormatMap) -> (r: ClipboardFile)
    ensures
        r matches ClipboardFile::FormatList { format_list } && format_list@.len() == 2
            && format_list@[0].0 == FILEDESCRIPTOR_FORMAT_ID
            && format_list@[0].1@ == announced_name(format_names(*formats), FILEDESCRIPTOR_FORMAT_ID, "FileGroupDescriptorW"@)
            && format_list@[1].0 == FILECONTENTS_FORMAT_ID
            && format_list@[1].1@ == announced_name(format_names(*formats), FILECONTENTS_FORMAT_ID, "FileContents"@),
{
    let fd_name = match get_local_format(formats, FILEDESCRIPTOR_FORMAT_ID) {
        Some(s) => s,
        None => String::from_str("FileGroupDescriptorW"),
    };
    let fc_name = match get_local_format(formats, FILECONTENTS_FORMAT_ID) {
        Some(s) => s,
        None => String::from_str("FileContents"),
    };
    ClipboardFile::FormatList { format_list: vec![(FILEDESCRIPTOR_FORMAT_ID, fd_name), (FILECONTENTS_FORMAT_ID, fc_name)] }
}

/// The response that tells the peer its content request `stream_id` failed.
pub fn file_contents_fail_response(stream_id: i32) -> (r: ClipboardFile)
    ensures
        r matches ClipboardFile::FileContentsResponse { msg_flags, stream_id: sid, requested_data }
            && msg_flags == CB_RESPONSE_FAIL && sid == stream_id && requested_data@.len() == 0,
{
    ClipboardFile::FileContentsResponse { msg_flags: CB_RESPONSE_FAIL, stream_id, requested_data: Vec::new() }
}

} // verus!
