use vstd::prelude::*;
use vstd::string::StringExecFns;

verus! {

/// How many times mounting is tried before giving up.
pub const MAX_MOUNT_ATTEMPTS: u32 = 3;
/// Delay before the second attempt, in milliseconds; it doubles after each failure.
pub const INITIAL_RETRY_DELAY_MS: u64 = 100;

/// What to do after a mount attempt.
#[derive(PartialEq, Eq, Structural, Debug, Clone, Copy)]
pub enum MountStep {
    /// The file system is mounted.
    Mounted,
    /// Unmount and prepare the mount point again, wait `delay_ms`, then try again.
    Retry { delay_ms: u64 },
    /// All attempts failed.
    GiveUp,
}

/// Delay after `failures` failed attempts: 100 ms, doubled per earlier failure.
pub open spec fn backoff_ms(failures: nat) -> nat
    decreases failures,
{
    if failures <= 1 {
        INITIAL_RETRY_DELAY_MS as nat
    } else {
        2 * backoff_ms((failures - 1) as nat)
    }
}

/// The delay before the attempt that follows failed attempt `attempt`.
pub fn retry_delay_ms(attempt: u32) -> (d: u64)
    requires
        1 <= attempt < MAX_MOUNT_ATTEMPTS,
    ensures
        d == backoff_ms(attempt as nat),
{
    let mut d: u64 = INITIAL_RETRY_DELAY_MS;
    let mut i: u32 = 1;
    while i < attempt
        invariant
            1 <= i <= attempt < MAX_MOUNT_ATTEMPTS,
            d == backoff_ms(i as nat),
            d <= INITIAL_RETRY_DELAY_MS * 2,
        decreases attempt - i,
    {
        d = d * 2;
        i = i + 1;
    }
    d
}

/// The decision after attempt `attempt` (counted from 1) succeeded or failed.
pub fn mount_attempt_step(attempt: u32, succeeded: bool) -> (s: MountStep)
    requires
        1 <= attempt <= MAX_MOUNT_ATTEMPTS,
    ensures
        succeeded ==> s == MountStep::Mounted,
        !succeeded && attempt < MAX_MOUNT_ATTEMPTS ==> s == (MountStep::Retry {
            delay_ms: backoff_ms(attempt as nat) as u64,
        }),
        !succeeded && attempt == MAX_MOUNT_ATTEMPTS ==> s == MountStep::GiveUp,
{
    if succeeded {
        MountStep::Mounted
    } else if attempt < MAX_MOUNT_ATTEMPTS {
        MountStep::Retry { delay_ms: retry_delay_ms(attempt) }
    } else {
        MountStep::GiveUp
    }
}

pub open spec fn string_seqs(v: Seq<String>) -> Seq<Seq<char>> {
    v.map_values(|s: String| s@)
}

/// The unmount commands to try in order, each as program and arguments.
pub fn unmount_commands(mount_point: &str) -> (r: Vec<Vec<String>>)
    ensures
        r@.len() == 3,
        string_seqs(r@[0]@) == seq!["fusermount"@, "-u"@, mount_point@],
        string_seqs(r@[1]@) == seq!["fusermount3"@, "-u"@, mount_point@],
        string_seqs(r@[2]@) == seq!["umount"@, mount_point@],
{
    let a = vec![String::from_str("fusermount"), String::from_str("-u"), String::from_str(mount_point)];
    let b = vec![String::from_str("fusermount3"), String::from_str("-u"), String::from_str(mount_point)];
    let c = vec![String::from_str("umount"), String::from_str(mount_point)];
    assert(string_seqs(a@) =~= seq!["fusermount"@, "-u"@, mount_point@]);
    assert(string_seqs(b@) =~= seq!["fusermount3"@, "-u"@, mount_point@]);
    assert(string_seqs(c@) =~= seq!["umount"@, mount_point@]);
    vec![a, b, c]
}

/// Whether to run the next unmount command after command `index` (counted
/// from 0) of `unmount_commands` ran with the outcome `succeeded`: only after
/// a failure, and while commands are left.
pub fn try_next_unmount(index: usize, succeeded: bool) -> (r: bool)
    ensures
        r == (!succeeded && index + 1 < 3),
{
    !succeeded && index < 2
}

/// The characters of `s`.
fn chars_of(s: &str) -> (r: Vec<char>)
    ensures
        r@ == s@,
{
    let mut v: Vec<char> = Vec::new();
    for c in it: s.chars()
        invariant
            v@ == it.seq().take(it.index() as int),
    {
        v.push(c);
    }
    v
}

/// Whether `c` has the Unicode `White_Space` property, as `char::is_whitespace` says.
pub open spec fn is_white_space(c: char) -> bool {
    let u = c as u32;
    (0x9 <= u <= 0xD) || u == 0x20 || u == 0x85 || u == 0xA0 || u == 0x1680 || (0x2000 <= u <= 0x200A)
        || u == 0x2028 || u == 0x2029 || u == 0x202F || u == 0x205F || u == 0x3000
}

fn white_space(c: char) -> (r: bool)
    ensures
        r == is_white_space(c),
{
    let u = c as u32;
    (0x9 <= u && u <= 0xD) || u == 0x20 || u == 0x85 || u == 0xA0 || u == 0x1680 || (0x2000 <= u && u <= 0x200A)
        || u == 0x2028 || u == 0x2029 || u == 0x202F || u == 0x205F || u == 0x3000
}

pub open spec fn is_separator(c: char, by_line: bool) -> bool {
    if by_line {
        c == '\n'
    } else {
        is_white_space(c)
    }
}

pub open spec fn piece(cur: Seq<char>) -> Seq<Seq<char>> {
    if cur.len() == 0 {
        Seq::empty()
    } else {
        seq![cur]
    }
}

/// The non-empty pieces of `s` between separators (newlines when `by_line`,
/// else white space), the first one continuing `cur`.
pub open spec fn split_on(s: Seq<char>, cur: Seq<char>, by_line: bool) -> Seq<Seq<char>>
    decreases s.len(),
{
    if s.len() == 0 {
        piece(cur)
    } else if is_separator(s[0], by_line) {
        piece(cur) + split_on(s.drop_first(), Seq::empty(), by_line)
    } else {
        split_on(s.drop_first(), cur.push(s[0]), by_line)
    }
}

pub open spec fn char_views(v: Seq<Vec<char>>) -> Seq<Seq<char>> {
    v.map_values(|p: Vec<char>| p@)
}

fn split_chars(s: &Vec<char>, by_line: bool) -> (r: Vec<Vec<char>>)
    ensures
        char_views(r@) == split_on(s@, Seq::empty(), by_line),
{
    let mut pieces: Vec<Vec<char>> = Vec::new();
    let mut cur: Vec<char> = Vec::new();
    let mut k: usize = 0;
    assert(s@.subrange(0, s@.len() as int) =~= s@);
    assert(char_views(pieces@) + split_on(s@, cur@, by_line) =~= split_on(s@, Seq::empty(), by_line));
    while k < s.len()
        invariant
            k <= s@.len(),
            split_on(s@, Seq::empty(), by_line) == char_views(pieces@) + split_on(
                s@.subrange(k as int, s@.len() as int),
                cur@,
                by_line,
            ),
        decreases s@.len() - k,
    {
        let c = s[k];
        let ghost rest = s@.subrange(k as int, s@.len() as int);
        assert(rest[0] == c);
        assert(rest.drop_first() =~= s@.subrange(k + 1, s@.len() as int));
        let sep = if by_line { c == '\n' } else { white_space(c) };
        if sep {
            let ghost old_views = char_views(pieces@);
            let ghost old_cur = cur@;
            if cur.len() > 0 {
                pieces.push(cur);
            }
            assert(char_views(pieces@) =~= old_views + piece(old_cur));
            cur = Vec::new();
            assert(cur@ =~= Seq::<char>::empty());
            assert(old_views + (piece(old_cur) + split_on(rest.drop_first(), Seq::empty(), by_line))
                =~= char_views(pieces@) + split_on(rest.drop_first(), cur@, by_line));
        } else {
            cur.push(c);
        }
        k = k + 1;
    }
    let ghost old_views = char_views(pieces@);
    let ghost old_cur = cur@;
    assert(s@.subrange(k as int, s@.len() as int).len() == 0);
    if cur.len() > 0 {
        pieces.push(cur);
    }
    assert(char_views(pieces@) =~= old_views + piece(old_cur));
    pieces
}

/// Whether some line of a mounts table (one mount per line, the mount point
/// as second field, fields separated by white space) names `path` as its
/// mount point.
pub open spec fn mounted_in_table(table: Seq<char>, path: Seq<char>) -> bool {
    exists|i: int|
        0 <= i < split_on(table, Seq::empty(), true).len() && {
            let fields = split_on(#[trigger] split_on(table, Seq::empty(), true)[i], Seq::empty(), false);
            fields.len() >= 2 && fields[1] == path
        }
}

fn same_chars(a: &Vec<char>, b: &Vec<char>) -> (r: bool)
    ensures
        r == (a@ == b@),
{
    if a.len() != b.len() {
        return false;
    }
    let mut k: usize = 0;
    while k < a.len()
        invariant
            a@.len() == b@.len(),
            k <= a@.len(),
            forall|j: int| 0 <= j < k ==> a@[j] == b@[j],
        decreases a@.len() - k,
    {
        if a[k] != b[k] {
            return false;
        }
        k = k + 1;
    }
    assert(a@ =~= b@);
    true
}

/// Whether the mounts table `table` lists `path` as a mount point.
pub fn is_mount_point_in_table(table: &str, path: &str) -> (r: bool)
    ensures
        r == mounted_in_table(table@, path@),
{
    let text = chars_of(table);
    let target = chars_of(path);
    let lines = split_chars(&text, true);
    let mut i: usize = 0;
    while i < lines.len()
        invariant
            char_views(lines@) == split_on(table@, Seq::empty(), true),
            target@ == path@,
            i <= lines@.len(),
            forall|j: int|
                0 <= j < i ==> {
                    let fields = split_on(
                        #[trigger] split_on(table@, Seq::empty(), true)[j],
                        Seq::empty(),
                        false,
                    );
                    !(fields.len() >= 2 && fields[1] == path@)
                },
        decreases lines@.len() - i,
    {
        let fields = split_chars(&lines[i], false);
        assert(lines@[i as int]@ == split_on(table@, Seq::empty(), true)[i as int]);
        if fields.len() >= 2 {
            assert(fields@[1]@ == char_views(fields@)[1]);
            if same_chars(&fields[1], &target) {
                return true;
            }
        }
        i = i + 1;
    }
    false
}

} // verus!
