use vstd::prelude::*;
use crate::error::CliprdrError;

verus! {

/// Size in bytes of one file descriptor record.
pub const RECORD_SIZE: usize = 592;
/// Offset of the UTF-16 name field inside a record.
pub const NAME_OFFSET: usize = 72;
/// Number of UTF-16 code units in the name field.
pub const NAME_UNITS: usize = 260;
/// 100-ns ticks from 1601-01-01 00:00:00 UTC to 1970-01-01 00:00:00 UTC.
pub const LDAP_EPOCH_DELTA: u64 = 116444736000000000;
/// Record flag: the attributes field is valid.
pub const FD_ATTRIBUTES: u32 = 4;
/// Record flag: the last write time is valid.
pub const FD_WRITESTIME: u32 = 32;
/// Record flag: the size fields are valid.
pub const FD_FILESIZE: u32 = 128;
/// Attribute bit of a directory.
pub const FILE_ATTRIBUTE_DIRECTORY: u32 = 16;

/// One remote file or directory of a published list, without its content.
pub struct FileDescriptor {
    /// Connection that published the list.
    pub conn_id: i32,
    /// Path relative to the list root, one name per segment.
    pub segments: Vec<String>,
    pub is_dir: bool,
    /// Declared size in bytes (0 when the record does not declare one).
    pub size: u64,
    /// Last write time in 100-ns ticks since 1970-01-01 00:00:00 UTC.
    pub modified: u64,
    /// Position of the record in its list.
    pub index: usize,
}

impl FileDescriptor {
    pub open spec fn path(&self) -> Seq<Seq<char>> {
        self.segments@.map_values(|s: String| s@)
    }
}

pub open spec fn le_u16(b: Seq<u8>, i: int) -> int {
    b[i] + 256 * b[i + 1]
}

pub open spec fn le_u32(b: Seq<u8>, i: int) -> int {
    le_u16(b, i) + 65536 * le_u16(b, i + 2)
}

pub open spec fn le_u64(b: Seq<u8>, i: int) -> int {
    le_u32(b, i) + 4294967296 * le_u32(b, i + 4)
}

pub open spec fn is_high_surrogate(u: u16) -> bool {
    0xD800 <= u < 0xDC00
}

pub open spec fn is_low_surrogate(u: u16) -> bool {
    0xDC00 <= u < 0xE000
}

/// The Unicode scalar values that UTF-16 units encode, or `None` on an
/// unpaired surrogate.
pub open spec fn utf16_scalars(u: Seq<u16>) -> Option<Seq<u32>>
    decreases u.len(),
{
    if u.len() == 0 {
        Some(Seq::empty())
    } else if is_high_surrogate(u[0]) {
        if u.len() >= 2 && is_low_surrogate(u[1]) {
            match utf16_scalars(u.subrange(2, u.len() as int)) {
                Some(rest) => Some(
                    seq![(0x10000 + (u[0] - 0xD800) * 1024 + (u[1] - 0xDC00)) as u32] + rest,
                ),
                None => None,
            }
        } else {
            None
        }
    } else if is_low_surrogate(u[0]) {
        None
    } else {
        match utf16_scalars(u.drop_first()) {
            Some(rest) => Some(seq![u[0] as u32] + rest),
            None => None,
        }
    }
}

/// Whether the characters of `s` are exactly the scalar values `v`.
pub open spec fn chars_are(s: Seq<char>, v: Seq<u32>) -> bool {
    s.len() == v.len() && forall|i: int| 0 <= i < s.len() ==> (#[trigger] s[i]) as u32 == v[i]
}

/// Relies on String::from_utf16: decodes UTF-16 and fails on an unpaired surrogate.
#[verifier::external_body]
fn decode_utf16(units: &Vec<u16>) -> (r: Option<String>)
    ensures
        match utf16_scalars(units@) {
            None => r is None,
            Some(v) => r matches Some(s) && chars_are(s@, v),
        },
{
    String::from_utf16(units).ok()
}

/// The name field of the record at `base`, as UTF-16 units.
pub open spec fn name_field(b: Seq<u8>, base: int) -> Seq<u16> {
    Seq::new(NAME_UNITS as nat, |k: int| le_u16(b, base + NAME_OFFSET + 2 * k) as u16)
}

/// The units before the first NUL.
pub open spec fn before_nul(u: Seq<u16>) -> Seq<u16>
    decreases u.len(),
{
    if u.len() == 0 || u[0] == 0 {
        Seq::empty()
    } else {
        seq![u[0]] + before_nul(u.drop_first())
    }
}

pub open spec fn is_separator(u: u16) -> bool {
    u == 0x2F || u == 0x5C
}

/// `cur` as a one-piece list, or no piece when it is empty.
pub open spec fn piece(cur: Seq<u16>) -> Seq<Seq<u16>> {
    if cur.len() == 0 {
        Seq::empty()
    } else {
        seq![cur]
    }
}

/// The non-empty pieces of `u` between `/` or `\` separators, the first one
/// continuing `cur`.
pub open spec fn split_path(u: Seq<u16>, cur: Seq<u16>) -> Seq<Seq<u16>>
    decreases u.len(),
{
    if u.len() == 0 {
        piece(cur)
    } else if is_separator(u[0]) {
        piece(cur) + split_path(u.drop_first(), Seq::empty())
    } else {
        split_path(u.drop_first(), cur.push(u[0]))
    }
}

/// The path segments, as UTF-16 units, of the record at `base`.
pub open spec fn record_pieces(b: Seq<u8>, base: int) -> Seq<Seq<u16>> {
    split_path(before_nul(name_field(b, base)), Seq::empty())
}

pub open spec fn record_flags(b: Seq<u8>, base: int) -> u32 {
    le_u32(b, base) as u32
}

/// Whether the record at `base` can be accepted.
pub open spec fn record_valid(b: Seq<u8>, base: int) -> bool {
    &&& record_flags(b, base) & FD_ATTRIBUTES != 0
    &&& record_pieces(b, base).len() > 0
    &&& forall|j: int|
        0 <= j < record_pieces(b, base).len() ==> (#[trigger] utf16_scalars(
            record_pieces(b, base)[j],
        )) is Some
}

pub open spec fn record_size(b: Seq<u8>, base: int) -> int {
    if record_flags(b, base) & FD_FILESIZE != 0 {
        le_u32(b, base + 68) + 4294967296 * le_u32(b, base + 64)
    } else {
        0
    }
}

pub open spec fn record_modified(b: Seq<u8>, base: int) -> int {
    if record_flags(b, base) & FD_WRITESTIME != 0 && le_u64(b, base + 56) >= LDAP_EPOCH_DELTA {
        le_u64(b, base + 56) - LDAP_EPOCH_DELTA
    } else {
        0
    }
}

pub open spec fn record_is_dir(b: Seq<u8>, base: int) -> bool {
    (le_u32(b, base + 36) as u32) & FILE_ATTRIBUTE_DIRECTORY != 0
}

/// Whether `d` is what the valid record at `base` describes.
pub open spec fn describes(b: Seq<u8>, base: int, conn_id: i32, index: int, d: FileDescriptor) -> bool {
    &&& d.conn_id == conn_id
    &&& d.index == index
    &&& d.is_dir == record_is_dir(b, base)
    &&& d.size == record_size(b, base)
    &&& d.modified == record_modified(b, base)
    &&& d.segments@.len() == record_pieces(b, base).len()
    &&& forall|j: int|
        0 <= j < d.segments@.len() ==> chars_are(
            (#[trigger] d.segments@[j])@,
            utf16_scalars(record_pieces(b, base)[j])->0,
        )
}

pub open spec fn record_count(b: Seq<u8>) -> int {
    le_u32(b, 0)
}

pub open spec fn record_base(k: int) -> int {
    4 + RECORD_SIZE * k
}

/// Whether a descriptor payload is well formed: a count, then exactly that
/// many valid records.
pub open spec fn payload_valid(b: Seq<u8>) -> bool {
    &&& b.len() >= 4
    &&& b.len() == record_base(record_count(b))
    &&& forall|k: int| 0 <= k < record_count(b) ==> #[trigger] record_valid(b, record_base(k))
}

fn read_u16(b: &Vec<u8>, i: usize) -> (r: u16)
    requires
        i + 2 <= b.len(),
    ensures
        r as int == le_u16(b@, i as int),
{
    b[i] as u16 + 256 * (b[i + 1] as u16)
}

fn read_u32(b: &Vec<u8>, i: usize) -> (r: u32)
    requires
        i + 4 <= b.len(),
    ensures
        r as int == le_u32(b@, i as int),
{
    let lo = read_u16(b, i);
    let hi = read_u16(b, i + 2);
    lo as u32 + 65536 * (hi as u32)
}

fn read_u64(b: &Vec<u8>, i: usize) -> (r: u64)
    requires
        i + 8 <= b.len(),
    ensures
        r as int == le_u64(b@, i as int),
{
    let lo = read_u32(b, i);
    let hi = read_u32(b, i + 4);
    lo as u64 + 4294967296 * (hi as u64)
}


/// The units of the name field of the record at `base` that precede its NUL.
fn read_name_units(b: &Vec<u8>, base: usize) -> (r: Vec<u16>)
    requires
        base + RECORD_SIZE <= b.len(),
    ensures
        r@ == before_nul(name_field(b@, base as int)),
{
    let ghost field = name_field(b@, base as int);
    let mut units: Vec<u16> = Vec::new();
    let mut k: usize = 0;
    assert(field.subrange(0, NAME_UNITS as int) =~= field);
    assert(units@ + before_nul(field) =~= before_nul(field));
    while k < NAME_UNITS
        invariant
            k <= NAME_UNITS,
            base + RECORD_SIZE <= b.len(),
            field == name_field(b@, base as int),
            before_nul(field) == units@ + before_nul(field.subrange(k as int, NAME_UNITS as int)),
        decreases NAME_UNITS - k,
    {
        let u = read_u16(b, base + NAME_OFFSET + 2 * k);
        let ghost rest = field.subrange(k as int, NAME_UNITS as int);
        assert(rest[0] == u);
        if u == 0 {
            assert(before_nul(rest) == Seq::<u16>::empty());
            assert(units@ + Seq::<u16>::empty() =~= units@);
            return units;
        }
        assert(rest.drop_first() =~= field.subrange(k + 1, NAME_UNITS as int));
        assert(units@.push(u) + before_nul(field.subrange(k + 1, NAME_UNITS as int)) =~= units@ + (
        seq![u] + before_nul(rest.drop_first())));
        units.push(u);
        k = k + 1;
    }
    assert(field.subrange(k as int, NAME_UNITS as int).len() == 0);
    assert(units@ + Seq::<u16>::empty() =~= units@);
    units
}

pub open spec fn unit_views(v: Seq<Vec<u16>>) -> Seq<Seq<u16>> {
    v.map_values(|p: Vec<u16>| p@)
}

/// The non-empty pieces of `u` between separators.
fn split_units(u: &Vec<u16>) -> (r: Vec<Vec<u16>>)
    ensures
        unit_views(r@) == split_path(u@, Seq::empty()),
{
    let mut pieces: Vec<Vec<u16>> = Vec::new();
    let mut cur: Vec<u16> = Vec::new();
    let mut k: usize = 0;
    assert(u@.subrange(0, u@.len() as int) =~= u@);
    assert(cur@ =~= Seq::<u16>::empty());
    assert(unit_views(pieces@) =~= Seq::<Seq<u16>>::empty());
    assert(unit_views(pieces@) + split_path(u@, cur@) =~= split_path(u@, Seq::empty()));
    while k < u.len()
        invariant
            k <= u@.len(),
            split_path(u@, Seq::empty()) == unit_views(pieces@) + split_path(
                u@.subrange(k as int, u@.len() as int),
                cur@,
            ),
        decreases u@.len() - k,
    {
        let x = u[k];
        let ghost rest = u@.subrange(k as int, u@.len() as int);
        assert(rest[0] == x);
        assert(rest.drop_first() =~= u@.subrange(k + 1, u@.len() as int));
        if x == 0x2F || x == 0x5C {
            let ghost old_views = unit_views(pieces@);
            let ghost old_cur = cur@;
            if cur.len() > 0 {
                pieces.push(cur);
                assert(unit_views(pieces@) =~= old_views + piece(old_cur));
            } else {
                assert(unit_views(pieces@) =~= old_views + piece(old_cur));
            }
            cur = Vec::new();
            assert(cur@ =~= Seq::<u16>::empty());
            assert(old_views + (piece(old_cur) + split_path(rest.drop_first(), Seq::empty()))
                =~= unit_views(pieces@) + split_path(rest.drop_first(), cur@));
        } else {
            cur.push(x);
        }
        k = k + 1;
    }
    let ghost old_views = unit_views(pieces@);
    assert(u@.subrange(k as int, u@.len() as int).len() == 0);
    if cur.len() > 0 {
        pieces.push(cur);
        assert(unit_views(pieces@) =~= old_views + piece(cur@));
    } else {
        assert(unit_views(pieces@) =~= old_views + piece(cur@));
    }
    pieces
}


/// Decodes the record at `base`, or `None` where it is not valid.
fn parse_record(b: &Vec<u8>, base: usize, conn_id: i32, index: usize) -> (r: Option<FileDescriptor>)
    requires
        base + RECORD_SIZE <= b.len(),
    ensures
        r is Some <==> record_valid(b@, base as int),
        r matches Some(d) ==> describes(b@, base as int, conn_id, index as int, d),
{
    let flags = read_u32(b, base);
    if flags & FD_ATTRIBUTES == 0 {
        return None;
    }
    let attributes = read_u32(b, base + 36);
    let write_time = read_u64(b, base + 56);
    let size_high = read_u32(b, base + 64);
    let size_low = read_u32(b, base + 68);
    let units = read_name_units(b, base);
    let pieces = split_units(&units);
    let ghost ps = record_pieces(b@, base as int);
    assert(unit_views(pieces@) == ps);
    if pieces.len() == 0 {
        return None;
    }
    let mut segments: Vec<String> = Vec::new();
    let mut j: usize = 0;
    while j < pieces.len()
        invariant
            j <= pieces@.len(),
            unit_views(pieces@) == ps,
            ps == record_pieces(b@, base as int),
            segments@.len() == j,
            forall|i: int| 0 <= i < j ==> (#[trigger] utf16_scalars(ps[i])) is Some,
            forall|i: int|
                0 <= i < j ==> chars_are((#[trigger] segments@[i])@, utf16_scalars(ps[i])->0),
        decreases pieces@.len() - j,
    {
        assert(pieces@[j as int]@ == ps[j as int]);
        match decode_utf16(&pieces[j]) {
            Some(name) => {
                segments.push(name);
            },
            None => {
                assert(utf16_scalars(ps[j as int]) is None);
                assert(utf16_scalars(record_pieces(b@, base as int)[j as int]) is None);
                assert(!record_valid(b@, base as int));
                return None;
            },
        }
        j = j + 1;
    }
    let size: u64 = if flags & FD_FILESIZE != 0 {
        size_low as u64 + 4294967296 * (size_high as u64)
    } else {
        0
    };
    let modified: u64 = if flags & FD_WRITESTIME != 0 && write_time >= LDAP_EPOCH_DELTA {
        write_time - LDAP_EPOCH_DELTA
    } else {
        0
    };
    Some(FileDescriptor {
        conn_id,
        segments,
        is_dir: attributes & FILE_ATTRIBUTE_DIRECTORY != 0,
        size,
        modified,
        index,
    })
}

/// Decodes a descriptor payload: a little-endian 32-bit record count, then
/// that many records. A payload that is truncated, has trailing bytes, or
/// holds an invalid record is rejected whole.
pub fn parse_file_descriptors(data: Vec<u8>, conn_id: i32) -> (r: Result<Vec<FileDescriptor>, CliprdrError>)
    ensures
        match r {
            Ok(v) => {
                &&& payload_valid(data@)
                &&& v@.len() == record_count(data@)
                &&& forall|k: int|
                    0 <= k < v@.len() ==> describes(
                        data@,
                        record_base(k),
                        conn_id,
                        k,
                        #[trigger] v@[k],
                    )
            },
            Err(e) => e == CliprdrError::InvalidRequest && !payload_valid(data@),
        },
{
    if data.len() < 4 {
        return Err(CliprdrError::InvalidRequest);
    }
    let count = read_u32(&data, 0) as usize;
    let rest = data.len() - 4;
    if rest % RECORD_SIZE != 0 || rest / RECORD_SIZE != count {
        return Err(CliprdrError::InvalidRequest);
    }
    assert(data@.len() == record_base(record_count(data@)));
    let mut files: Vec<FileDescriptor> = Vec::new();
    let mut k: usize = 0;
    let mut base: usize = 4;
    while k < count
        invariant
            k <= count,
            count == record_count(data@),
            data@.len() == record_base(count as int),
            base == record_base(k as int),
            files@.len() == k,
            forall|i: int| 0 <= i < k ==> #[trigger] record_valid(data@, record_base(i)),
            forall|i: int|
                0 <= i < k ==> describes(data@, record_base(i), conn_id, i, #[trigger] files@[i]),
        decreases count - k,
    {
        match parse_record(&data, base, conn_id, k) {
            Some(d) => {
                files.push(d);
            },
            None => {
                return Err(CliprdrError::InvalidRequest);
            },
        }
        k = k + 1;
        base = base + RECORD_SIZE;
    }
    Ok(files)
}

} // verus!
