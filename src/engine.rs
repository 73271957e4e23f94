use vstd::prelude::*;
use crate::error::CliprdrError;
use crate::message::{ClipboardFile, CB_RESPONSE_FAIL, FILECONTENTS_RANGE};
use crate::tree::{lemma_file_node_from_descriptor, FsTree};

verus! {

/// Content is requested in blocks of this many bytes.
pub const BLOCK_SIZE: u64 = 4194304;
/// How long a read waits for its response, in milliseconds.
pub const FUSE_TIMEOUT_MS: u64 = 3000;

/// Where a pending read stands.
pub enum PendingState {
    Waiting,
    Received(Vec<u8>),
    Failed,
    /// The file list was replaced while the read waited.
    Stale,
}

/// A read waiting for the response with its stream id.
pub struct PendingRead {
    pub stream_id: i32,
    /// Generation of the file list the read was issued against.
    pub generation: u64,
    /// Index of the file in its list.
    pub list_index: usize,
    /// Start of the wanted range, clamped to the file size.
    pub offset: u64,
    /// Length of the wanted range, clamped to the file size.
    pub length: u64,
    /// Time (ms) after which the read fails.
    pub deadline: u64,
    pub state: PendingState,
}

/// Reads in flight, keyed by stream id.
pub struct PendingTable {
    /// Generation of the current file list.
    pub generation: u64,
    /// The stream id the next read gets.
    pub next_stream_id: i32,
    pub reads: Vec<PendingRead>,
}

pub open spec fn min(a: int, b: int) -> int {
    if a <= b { a } else { b }
}

/// The length to request for `len` wanted bytes: `len` rounded up to a
/// whole number of blocks, but no more than the `avail` bytes left in the file.
pub open spec fn block_len(len: int, avail: int) -> int {
    if len % (BLOCK_SIZE as int) == 0 {
        len
    } else {
        min(len + (BLOCK_SIZE as int - len % (BLOCK_SIZE as int)), avail)
    }
}

/// What polling `r` gives at time `now`: `None` while it waits, else its outcome.
pub open spec fn read_outcome(r: PendingRead, now: u64) -> Option<Result<Seq<u8>, CliprdrError>> {
    match r.state {
        PendingState::Received(data) => Some(Ok(received_range(data@, r))),
        PendingState::Failed => Some(Err(CliprdrError::FileContentsFailed)),
        PendingState::Stale => Some(Err(CliprdrError::StaleGeneration)),
        PendingState::Waiting => {
            if now >= r.deadline {
                Some(Err(CliprdrError::IoTimeout))
            } else {
                None
            }
        },
    }
}

/// The wanted bytes of a response, which starts at the wanted offset: its
/// first `length` bytes, or all of it when it is shorter.
pub open spec fn received_range(data: Seq<u8>, r: PendingRead) -> Seq<u8> {
    data.subrange(0, min(r.length as int, data.len() as int))
}

/// Whether `r` can still be completed by a response at time `now`.
pub open spec fn completable(r: PendingRead, now: u64) -> bool {
    r.state is Waiting && now < r.deadline
}

impl PendingTable {
    pub open spec fn wf(&self) -> bool {
        &&& 1 <= self.next_stream_id
        &&& forall|j: int|
            0 <= j < self.reads@.len() ==> 1 <= (#[trigger] self.reads@[j]).stream_id
                < self.next_stream_id
        &&& forall|j: int, l: int|
            0 <= j < self.reads@.len() && 0 <= l < self.reads@.len() && j != l ==> (
            #[trigger] self.reads@[j]).stream_id != (#[trigger] self.reads@[l]).stream_id
    }

    /// Whether a read with this stream id is in the table.
    pub open spec fn has_stream(&self, stream_id: i32) -> bool {
        exists|j: int| 0 <= j < self.reads@.len() && (#[trigger] self.reads@[j]).stream_id == stream_id
    }

    pub fn new() -> (t: PendingTable)
        ensures
            t.wf(),
            t.generation == 0,
            t.next_stream_id == 1,
            t.reads@.len() == 0,
    {
        PendingTable { generation: 0, next_stream_id: 1, reads: Vec::new() }
    }

    /// The position of the read with this stream id.
    fn find(&self, stream_id: i32) -> (r: Option<usize>)
        requires
            self.wf(),
        ensures
            r matches Some(j) ==> j < self.reads@.len() && self.reads@[j as int].stream_id == stream_id,
            r is None ==> !self.has_stream(stream_id),
    {
        let mut j: usize = 0;
        while j < self.reads.len()
            invariant
                j <= self.reads@.len(),
                forall|l: int| 0 <= l < j ==> (#[trigger] self.reads@[l]).stream_id != stream_id,
            decreases self.reads@.len() - j,
        {
            if self.reads[j].stream_id == stream_id {
                return Some(j);
            }
            j = j + 1;
        }
        None
    }
}


/// `b` is the read `a` with only its state changed.
pub open spec fn same_request(a: PendingRead, b: PendingRead) -> bool {
    &&& b.stream_id == a.stream_id
    &&& b.generation == a.generation
    &&& b.list_index == a.list_index
    &&& b.offset == a.offset
    &&& b.length == a.length
    &&& b.deadline == a.deadline
}

/// `r` reports the outcome `o`.
pub open spec fn reports(r: Option<Result<Vec<u8>, CliprdrError>>, o: Option<Result<Seq<u8>, CliprdrError>>) -> bool {
    match (r, o) {
        (None, None) => true,
        (Some(Ok(v)), Some(Ok(s))) => v@ == s,
        (Some(Err(e)), Some(Err(f))) => e == f,
        _ => false,
    }
}

pub open spec fn deadline_after(now: u64) -> u64 {
    if now <= u64::MAX - FUSE_TIMEOUT_MS {
        (now + FUSE_TIMEOUT_MS) as u64
    } else {
        u64::MAX
    }
}

/// What `start_read` did: `b` is `a` after a read of `length` bytes at
/// `offset` of node `id` of `tree` at time `now`, which gave `r`.
pub open spec fn read_started(a: PendingTable, b: PendingTable, tree: &FsTree, id: usize, offset: u64, length: u64, now: u64, r: Result<Option<ClipboardFile>, CliprdrError>) -> bool {
    &&& b.wf()
    &&& b.generation == a.generation
    &&& id >= tree.nodes@.len() ==> r is Err && r->Err_0 == CliprdrError::NotFound
    &&& id < tree.nodes@.len() && tree.nodes@[id as int].is_dir ==> r is Err && r->Err_0
        == CliprdrError::IsDirectory
    &&& r is Err || r == Ok::<Option<ClipboardFile>, CliprdrError>(None) ==> b == a
    &&& id < tree.nodes@.len() && !tree.nodes@[id as int].is_dir ==> {
        let size = tree.nodes@[id as int].size as int;
        let start = min(offset as int, size);
        let end = min(offset + length, size);
        let k = tree.nodes@[id as int].desc_index->0;
        &&& start == end ==> r == Ok::<Option<ClipboardFile>, CliprdrError>(None)
        &&& start < end && (a.next_stream_id == i32::MAX || k > i32::MAX) ==> r is Err
            && r->Err_0 == CliprdrError::ClipboardInternalError
        &&& start < end && a.next_stream_id < i32::MAX && k <= i32::MAX ==> {
            &&& r matches Ok(Some(ClipboardFile::FileContentsRequest { stream_id, list_index, dw_flags, position, requested_size }))
                && stream_id == a.next_stream_id && list_index == k as i32
                && dw_flags == FILECONTENTS_RANGE && position == start
                && requested_size == block_len(end - start, size - start)
            &&& b.next_stream_id == a.next_stream_id + 1
            &&& b.reads@ == a.reads@.push(
                (PendingRead {
                    stream_id: a.next_stream_id,
                    generation: a.generation,
                    list_index: k,
                    offset: start as u64,
                    length: (end - start) as u64,
                    deadline: deadline_after(now),
                    state: PendingState::Waiting,
                }),
            )
        }
    }
}

/// What `poll` did: `b` is `a` after polling `stream_id` at time `now`, which gave `r`.
pub open spec fn polled(a: PendingTable, b: PendingTable, stream_id: i32, now: u64, r: Option<Result<Vec<u8>, CliprdrError>>) -> bool {
    &&& b.wf()
    &&& b.generation == a.generation
    &&& b.next_stream_id == a.next_stream_id
    &&& !a.has_stream(stream_id) ==> r == Some(Err::<Vec<u8>, CliprdrError>(CliprdrError::NotFound)) && b == a
    &&& forall|j: int|
        0 <= j < a.reads@.len() && (#[trigger] a.reads@[j]).stream_id
            == stream_id ==> {
            let o = read_outcome(a.reads@[j], now);
            &&& reports(r, o)
            &&& o is None ==> b == a
            &&& o is Some ==> b.reads@ == a.reads@.remove(j)
        }
}

impl PendingTable {
    /// Registers a read of `length` bytes at `offset` of file node `id`, and
    /// gives the content request to send. The range is clamped to the file
    /// size; an empty range registers nothing and gives `None`. The request
    /// starts at the wanted offset and asks for the wanted length rounded up
    /// to whole blocks, but not past the end of the file.
    pub fn start_read(&mut self, tree: &FsTree, id: usize, offset: u64, length: u64, now: u64) -> (r: Result<
        Option<ClipboardFile>,
        CliprdrError,
    >)
        requires
            old(self).wf(),
            tree.wf(),
        ensures
            read_started(*old(self), *final(self), tree, id, offset, length, now, r),
    {
        if id >= tree.nodes.len() {
            return Err(CliprdrError::NotFound);
        }
        let node = &tree.nodes[id];
        if node.is_dir {
            return Err(CliprdrError::IsDirectory);
        }
        proof {
            lemma_file_node_from_descriptor(tree, id as int);
        }
        let size = node.size;
        let start: u64 = if offset <= size { offset } else { size };
        let end: u64 = if offset >= size || length >= size - offset { size } else { offset + length };
        if start == end {
            return Ok(None);
        }
        let k = match node.desc_index {
            Some(k) => k,
            None => 0,
        };
        if self.next_stream_id == i32::MAX || k > i32::MAX as usize {
            return Err(CliprdrError::ClipboardInternalError);
        }
        let len = end - start;
        let avail = size - start;
        let rem = len % BLOCK_SIZE;
        let requested_size: u64 = if rem == 0 {
            len
        } else if avail - len <= BLOCK_SIZE - rem {
            avail
        } else {
            len + (BLOCK_SIZE - rem)
        };
        let deadline: u64 = if now <= u64::MAX - FUSE_TIMEOUT_MS { now + FUSE_TIMEOUT_MS } else { u64::MAX };
        let stream_id = self.next_stream_id;
        self.reads.push(PendingRead {
            stream_id,
            generation: self.generation,
            list_index: k,
            offset: start,
            length: len,
            deadline,
            state: PendingState::Waiting,
        });
        self.next_stream_id = stream_id + 1;
        Ok(Some(ClipboardFile::FileContentsRequest {
            stream_id,
            list_index: k as i32,
            dw_flags: FILECONTENTS_RANGE,
            position: start,
            requested_size,
        }))
    }

    /// Completes the read with this stream id with a response that arrived at
    /// time `now`. Only a read that still waits and whose deadline has not
    /// passed takes it; otherwise the response is dropped and nothing changes.
    pub fn fulfill(&mut self, stream_id: i32, msg_flags: i32, data: Vec<u8>, now: u64) -> (r: bool)
        requires
            old(self).wf(),
        ensures
            fulfilled(*old(self), *final(self), stream_id, msg_flags, data, now),
            r == exists|j: int|
                0 <= j < old(self).reads@.len() && (#[trigger] old(self).reads@[j]).stream_id
                    == stream_id && completable(old(self).reads@[j], now),
            !r ==> *final(self) == *old(self),
            final(self).generation == old(self).generation,
            final(self).next_stream_id == old(self).next_stream_id,
            final(self).reads@.len() == old(self).reads@.len(),
            forall|j: int|
                0 <= j < old(self).reads@.len() && (#[trigger] old(self).reads@[j]).stream_id
                    != stream_id ==> final(self).reads@[j] == old(self).reads@[j],
            r ==> forall|j: int|
                0 <= j < old(self).reads@.len() && (#[trigger] old(self).reads@[j]).stream_id
                    == stream_id ==> same_request(old(self).reads@[j], final(self).reads@[j]) && (if msg_flags
                    & CB_RESPONSE_FAIL != 0 {
                    final(self).reads@[j].state is Failed
                } else {
                    final(self).reads@[j].state == PendingState::Received(data)
                }),
    {
        match self.find(stream_id) {
            None => false,
            Some(j) => {
                if !matches!(self.reads[j].state, PendingState::Waiting) || now >= self.reads[j].deadline {
                    return false;
                }
                let state = if msg_flags & CB_RESPONSE_FAIL != 0 {
                    PendingState::Failed
                } else {
                    PendingState::Received(data)
                };
                self.reads[j].state = state;
                true
            },
        }
    }

    /// Resolves the read with this stream id at time `now` if its outcome is
    /// known: the wanted part of its response, the peer's failure, a replaced
    /// file list, or a passed deadline. A resolved read leaves the table;
    /// `None` means it still waits. An unknown stream id gives `NotFound`.
    pub fn poll(&mut self, stream_id: i32, now: u64) -> (r: Option<Result<Vec<u8>, CliprdrError>>)
        requires
            old(self).wf(),
        ensures
            polled(*old(self), *final(self), stream_id, now, r),
    {
        let j = match self.find(stream_id) {
            None => {
                return Some(Err(CliprdrError::NotFound));
            },
            Some(j) => j,
        };
        let ghost old_reads = self.reads@;
        if matches!(self.reads[j].state, PendingState::Waiting) && now < self.reads[j].deadline {
            return None;
        }
        let read = self.reads.remove(j);
        assert(read == old_reads[j as int]);
        assert forall|a: int, b: int|
            0 <= a < self.reads@.len() && 0 <= b < self.reads@.len() && a != b implies (
            #[trigger] self.reads@[a]).stream_id != (#[trigger] self.reads@[b]).stream_id by {
            let a2 = if a < j { a } else { a + 1 };
            let b2 = if b < j { b } else { b + 1 };
            assert(self.reads@[a] == old_reads[a2]);
            assert(self.reads@[b] == old_reads[b2]);
        }
        assert forall|l: int| 0 <= l < self.reads@.len() implies 1 <= (#[trigger] self.reads@[l]).stream_id
            < self.next_stream_id by {
            let l2 = if l < j { l } else { l + 1 };
            assert(self.reads@[l] == old_reads[l2]);
        }
        assert forall|l: int| 0 <= l < old_reads.len() && (#[trigger] old_reads[l]).stream_id == stream_id implies l == j by {
            if l != j {
                assert(old_reads[l].stream_id != old_reads[j as int].stream_id);
            }
        }
        match read.state {
            PendingState::Received(data) => {
                let len = data.len() as u64;
                let from: u64 = 0;
                let to: u64 = if read.length <= len { read.length } else { len };
                let mut out: Vec<u8> = Vec::new();
                let mut x: u64 = from;
                while x < to
                    invariant
                        from <= x <= to,
                        to <= data@.len(),
                        out@ == data@.subrange(from as int, x as int),
                    decreases to - x,
                {
                    out.push(data[x as usize]);
                    x = x + 1;
                    assert(out@ =~= data@.subrange(from as int, x as int));
                }
                Some(Ok(out))
            },
            PendingState::Failed => Some(Err(CliprdrError::FileContentsFailed)),
            PendingState::Stale => Some(Err(CliprdrError::StaleGeneration)),
            PendingState::Waiting => Some(Err(CliprdrError::IoTimeout)),
        }
    }

    /// Withdraws the read with this stream id, whose request could not be
    /// sent; an unknown stream id changes nothing.
    pub fn cancel(&mut self, stream_id: i32)
        requires
            old(self).wf(),
        ensures
            final(self).wf(),
            final(self).generation == old(self).generation,
            final(self).next_stream_id == old(self).next_stream_id,
            !old(self).has_stream(stream_id) ==> *final(self) == *old(self),
            forall|j: int|
                0 <= j < old(self).reads@.len() && (#[trigger] old(self).reads@[j]).stream_id == stream_id
                    ==> final(self).reads@ == old(self).reads@.remove(j),
    {
        let j = match self.find(stream_id) {
            None => {
                return;
            },
            Some(j) => j,
        };
        let ghost old_reads = self.reads@;
        let _ = self.reads.remove(j);
        assert forall|a: int, b: int|
            0 <= a < self.reads@.len() && 0 <= b < self.reads@.len() && a != b implies (
            #[trigger] self.reads@[a]).stream_id != (#[trigger] self.reads@[b]).stream_id by {
            let a2 = if a < j { a } else { a + 1 };
            let b2 = if b < j { b } else { b + 1 };
            assert(self.reads@[a] == old_reads[a2]);
            assert(self.reads@[b] == old_reads[b2]);
        }
        assert forall|l: int| 0 <= l < self.reads@.len() implies 1 <= (#[trigger] self.reads@[l]).stream_id
            < self.next_stream_id by {
            let l2 = if l < j { l } else { l + 1 };
            assert(self.reads@[l] == old_reads[l2]);
        }
        assert forall|l: int| 0 <= l < old_reads.len() && (#[trigger] old_reads[l]).stream_id == stream_id implies l == j by {
            if l != j {
                assert(old_reads[l].stream_id != old_reads[j as int].stream_id);
            }
        }
    }

    /// Starts a new generation at time `now`: every read that still waits
    /// within its deadline resolves with `StaleGeneration` at once; the other
    /// reads keep their state (one past its deadline still times out).
    pub fn invalidate(&mut self, now: u64)
        requires
            old(self).wf(),
        ensures
            invalidated(*old(self), *final(self), now),
    {
        let mut j: usize = 0;
        while j < self.reads.len()
            invariant
                self.next_stream_id == old(self).next_stream_id,
                self.generation == old(self).generation,
                self.reads@.len() == old(self).reads@.len(),
                j <= self.reads@.len(),
                forall|l: int|
                    0 <= l < self.reads@.len() ==> same_request(old(self).reads@[l], #[trigger] self.reads@[l]),
                forall|l: int|
                    0 <= l < j ==> if completable(old(self).reads@[l], now) {
                        (#[trigger] self.reads@[l]).state is Stale
                    } else {
                        self.reads@[l].state == old(self).reads@[l].state
                    },
                forall|l: int| j <= l < self.reads@.len() ==> (#[trigger] self.reads@[l]) == old(self).reads@[l],
            decreases self.reads@.len() - j,
        {
            if matches!(self.reads[j].state, PendingState::Waiting) && now < self.reads[j].deadline {
                self.reads[j].state = PendingState::Stale;
            }
            j = j + 1;
        }
        self.generation = if self.generation == u64::MAX { 0 } else { self.generation + 1 };
        assert forall|a: int, b: int|
            0 <= a < self.reads@.len() && 0 <= b < self.reads@.len() && a != b implies (
            #[trigger] self.reads@[a]).stream_id != (#[trigger] self.reads@[b]).stream_id by {
            assert(same_request(old(self).reads@[a], self.reads@[a]));
            assert(same_request(old(self).reads@[b], self.reads@[b]));
        }
    }
}

/// `b` is `a` after a response for `stream_id` arrived at time `now`: the
/// read with that stream id takes it if it still waits and its deadline has
/// not passed; nothing else changes.
pub open spec fn fulfilled(a: PendingTable, b: PendingTable, stream_id: i32, msg_flags: i32, data: Vec<u8>, now: u64) -> bool {
    &&& b.wf()
    &&& b.generation == a.generation
    &&& b.next_stream_id == a.next_stream_id
    &&& b.reads@.len() == a.reads@.len()
    &&& forall|j: int|
        0 <= j < a.reads@.len() ==> if a.reads@[j].stream_id == stream_id && completable(a.reads@[j], now) {
            &&& same_request(a.reads@[j], #[trigger] b.reads@[j])
            &&& if msg_flags & CB_RESPONSE_FAIL != 0 {
                b.reads@[j].state is Failed
            } else {
                b.reads@[j].state == PendingState::Received(data)
            }
        } else {
            b.reads@[j] == a.reads@[j]
        }
}

/// `b` is `a` after a new generation started at time `now`: reads still
/// waiting within their deadline became stale, the others kept their state.
pub open spec fn invalidated(a: PendingTable, b: PendingTable, now: u64) -> bool {
    &&& b.wf()
    &&& b.generation == next_generation(a.generation)
    &&& b.next_stream_id == a.next_stream_id
    &&& b.reads@.len() == a.reads@.len()
    &&& forall|j: int|
        0 <= j < a.reads@.len() ==> same_request(a.reads@[j], #[trigger] b.reads@[j]) && if completable(a.reads@[j], now) {
            b.reads@[j].state is Stale
        } else {
            b.reads@[j].state == a.reads@[j].state
        }
}

/// The generation after `g`; the tag wraps around.
pub open spec fn next_generation(g: u64) -> u64 {
    if g == u64::MAX {
        0
    } else {
        (g + 1) as u64
    }
}


/// A response for one stream id leaves every other read as it was, its
/// range, state and deadline included.
pub proof fn lemma_fulfill_keeps_other_reads(a: PendingTable, b: PendingTable, stream_id: i32, msg_flags: i32, data: Vec<u8>, now: u64, j: int)
    requires
        fulfilled(a, b, stream_id, msg_flags, data, now),
        0 <= j < a.reads@.len(),
        a.reads@[j].stream_id != stream_id,
    ensures
        b.reads@[j] == a.reads@[j],
{
}

/// A response for a stream id whose read is gone (resolved and polled), was
/// already completed, or has passed its deadline changes nothing.
pub proof fn lemma_late_response_ignored(a: PendingTable, b: PendingTable, stream_id: i32, msg_flags: i32, data: Vec<u8>, now: u64)
    requires
        fulfilled(a, b, stream_id, msg_flags, data, now),
        forall|j: int| 0 <= j < a.reads@.len() && (#[trigger] a.reads@[j]).stream_id == stream_id ==> !completable(a.reads@[j], now),
    ensures
        b.reads@ == a.reads@,
        b.generation == a.generation,
        b.next_stream_id == a.next_stream_id,
{
    assert(b.reads@ =~= a.reads@);
}

/// Responses for two different stream ids, both arriving at time `now`, leave
/// the same reads whichever comes first.
pub proof fn lemma_responses_commute(
    a: PendingTable,
    b1: PendingTable,
    c1: PendingTable,
    b2: PendingTable,
    c2: PendingTable,
    s1: i32,
    f1: i32,
    d1: Vec<u8>,
    s2: i32,
    f2: i32,
    d2: Vec<u8>,
    now: u64,
)
    requires
        s1 != s2,
        fulfilled(a, b1, s1, f1, d1, now),
        fulfilled(b1, c1, s2, f2, d2, now),
        fulfilled(a, b2, s2, f2, d2, now),
        fulfilled(b2, c2, s1, f1, d1, now),
    ensures
        c1.reads@ == c2.reads@,
{
    assert forall|j: int| 0 <= j < a.reads@.len() implies c1.reads@[j] == c2.reads@[j] by {
        assert(b1.reads@[j] == a.reads@[j] || a.reads@[j].stream_id == s1);
        assert(b2.reads@[j] == a.reads@[j] || a.reads@[j].stream_id == s2);
        assert(c1.reads@[j] == b1.reads@[j] || b1.reads@[j].stream_id == s2);
        assert(c2.reads@[j] == b2.reads@[j] || b2.reads@[j].stream_id == s1);
        if a.reads@[j].stream_id == s1 {
            assert(b1.reads@[j].stream_id == s1);
        } else if a.reads@[j].stream_id == s2 {
            assert(b2.reads@[j].stream_id == s2);
        }
    }
    assert(c1.reads@ =~= c2.reads@);
}

/// A read of a non-empty range of a file, started while stream ids are left,
/// sends a fresh request at the wanted offset: its stream id differs from
/// every stream id issued before, whatever became of those reads, and no
/// earlier response serves it.
pub proof fn lemma_new_read_gets_fresh_request(
    a: PendingTable,
    b: PendingTable,
    tree: &FsTree,
    id: usize,
    offset: u64,
    length: u64,
    now: u64,
    r: Result<Option<ClipboardFile>, CliprdrError>,
    earlier: i32,
)
    requires
        a.wf(),
        read_started(a, b, tree, id, offset, length, now, r),
        id < tree.nodes@.len(),
        !tree.nodes@[id as int].is_dir,
        offset < tree.nodes@[id as int].size,
        length > 0,
        a.next_stream_id < i32::MAX,
        tree.nodes@[id as int].desc_index->0 <= i32::MAX,
        earlier < a.next_stream_id,
    ensures
        r matches Ok(Some(ClipboardFile::FileContentsRequest { stream_id, position, .. })) && stream_id
            != earlier && position == offset && !a.has_stream(stream_id),
        b.reads@.last().state is Waiting,
{
}

} // verus!
