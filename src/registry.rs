use vstd::prelude::*;
use vstd::string::StringExecFns;
use crate::descriptor::{describes, parse_file_descriptors, payload_valid, record_base, record_count, FileDescriptor};
use crate::engine::{completable, same_request, fulfilled, invalidated, polled, read_outcome, read_started, PendingTable};
use crate::descriptor::record_size;
use crate::tree::{fpath, lemma_empty_list_empty_root, lemma_file_node_from_descriptor};
use crate::error::CliprdrError;
use crate::message::{format_names, local_format_table, remote_format_map, ClipboardFile, FormatMap};
use crate::tree::{child_names, FsTree};

verus! {

/// The state of one mounted role: where it is mounted, who published the
/// current list, the tree of that list and the reads in flight.
pub struct FuseContext {
    pub mount_point: String,
    /// Connection that published the current list (0: none).
    pub conn_id: i32,
    pub tree: FsTree,
    pub reads: PendingTable,
}

/// The two roles: the side that initiated the clipboard channel (client) and
/// the side that received it (server). A role has a context once mounted.
pub struct Registry {
    /// Local names of the formats of the peer.
    pub formats: FormatMap,
    pub client_mount_point: String,
    pub server_mount_point: String,
    pub client: Option<FuseContext>,
    pub server: Option<FuseContext>,
}

pub open spec fn mount_point_of(app_name: Seq<char>, is_client: bool) -> Seq<char> {
    "/tmp/"@ + app_name + if is_client {
        "/cliprdr-client"@
    } else {
        "/cliprdr-server"@
    }
}

/// `b` is `a` with a new list, set at time `now`, whose tree is built and
/// whose earlier reads were invalidated.
pub open spec fn list_replaced(a: FuseContext, b: FuseContext, now: u64) -> bool {
    &&& b.wf()
    &&& b.mount_point == a.mount_point
    &&& invalidated(a.reads, b.reads, now)
}

/// `b` is `a` after its list was emptied at time `now`.
pub open spec fn cleared(a: FuseContext, b: FuseContext, now: u64) -> bool {
    &&& list_replaced(a, b, now)
    &&& b.conn_id == a.conn_id
    &&& b.tree.files@.len() == 0
}

/// `b` is `a` after connection `conn_id` published the list in `data` at time `now`.
pub open spec fn loaded(a: FuseContext, b: FuseContext, data: Seq<u8>, conn_id: i32, now: u64) -> bool {
    &&& list_replaced(a, b, now)
    &&& b.conn_id == conn_id
    &&& payload_valid(data)
    &&& b.tree.files@.len() == record_count(data)
    &&& forall|k: int|
        0 <= k < b.tree.files@.len() ==> describes(data, record_base(k), conn_id, k, #[trigger] b.tree.files@[k])
}

/// Whether `urls` are the top-level entries of `t` under `mount_point`.
pub open spec fn urls_of(urls: Seq<String>, mount_point: Seq<char>, t: FsTree) -> bool {
    &&& urls.len() == child_names(t.nodes@, 0).len()
    &&& forall|u: int| 0 <= u < urls.len() ==> (#[trigger] urls[u])@ == mount_point + seq!['/'] + child_names(t.nodes@, 0)[u]
}

/// Whether `conn_id` may clear the list of a context owned by `owner`.
pub open spec fn may_clear(owner: i32, conn_id: i32) -> bool {
    conn_id == 0 || conn_id == owner
}

impl FuseContext {
    pub open spec fn wf(&self) -> bool {
        &&& self.tree.wf()
        &&& self.reads.wf()
        &&& self.tree.generation == self.reads.generation
    }

    /// A context mounted at `mount_point`, with an empty list and no owner.
    pub fn new(mount_point: String) -> (c: FuseContext)
        ensures
            c.wf(),
            c.mount_point == mount_point,
            c.conn_id == 0,
            c.tree.files@.len() == 0,
            c.reads.reads@.len() == 0,
            c.reads.next_stream_id == 1,
            c.reads.generation == 0,
    {
        let reads = PendingTable::new();
        let tree = FsTree::empty(reads.generation);
        FuseContext { mount_point, conn_id: 0, tree, reads }
    }

    /// Replaces the list with `files`.
    fn load_file_list(&mut self, files: Vec<FileDescriptor>, now: u64)
        requires
            old(self).wf(),
        ensures
            list_replaced(*old(self), *final(self), now),
            final(self).tree.files@ == files@,
            final(self).conn_id == old(self).conn_id,
    {
        self.reads.invalidate(now);
        self.tree = FsTree::build(files, self.reads.generation);
    }

    /// Empties the list, if `conn_id` is 0 or the owner of the list.
    pub fn empty_local_files(&mut self, conn_id: i32, now: u64) -> (r: bool)
        requires
            old(self).wf(),
        ensures
            r == may_clear(old(self).conn_id, conn_id),
            r ==> cleared(*old(self), *final(self), now),
            !r ==> *final(self) == *old(self),
    {
        if conn_id != 0 && self.conn_id != conn_id {
            return false;
        }
        self.load_file_list(Vec::new(), now);
        true
    }

    /// The paths under the mount point of the top-level entries of the list.
    fn root_urls(&self) -> (r: Vec<String>)
        requires
            self.wf(),
        ensures
            urls_of(r@, self.mount_point@, self.tree),
    {
        let names = self.tree.list_root();
        let mut urls: Vec<String> = Vec::new();
        let mut u: usize = 0;
        while u < names.len()
            invariant
                crate::tree::string_views(names@) == child_names(self.tree.nodes@, 0),
                u <= names@.len(),
                urls@.len() == u,
                forall|v: int|
                    0 <= v < u ==> (#[trigger] urls@[v])@ == self.mount_point@ + seq!['/'] + child_names(
                        self.tree.nodes@,
                        0,
                    )[v],
            decreases names@.len() - u,
        {
            let url = self.mount_point.clone().concat("/").concat(names[u].as_str());
            proof {
                reveal_strlit("/");
            }
            assert(names@[u as int]@ == child_names(self.tree.nodes@, 0)[u as int]);
            urls.push(url);
            u = u + 1;
        }
        urls
    }

    /// Publishes the list in `format_data` for connection `conn_id`, which
    /// becomes its owner, and gives the paths of its top-level entries. A
    /// malformed payload changes nothing.
    pub fn format_data_response_to_urls(&mut self, format_data: Vec<u8>, conn_id: i32, now: u64) -> (r: Result<Vec<String>, CliprdrError>)
        requires
            old(self).wf(),
        ensures
            r is Ok <==> payload_valid(format_data@),
            r is Err ==> r->Err_0 == CliprdrError::InvalidRequest && *final(self) == *old(self),
            r matches Ok(urls) ==> loaded(*old(self), *final(self), format_data@, conn_id, now) && urls_of(
                urls@,
                final(self).mount_point@,
                final(self).tree,
            ),
    {
        let files = match parse_file_descriptors(format_data, conn_id) {
            Ok(files) => files,
            Err(e) => {
                return Err(e);
            },
        };
        self.load_file_list(files, now);
        self.conn_id = conn_id;
        Ok(self.root_urls())
    }
}


/// The context slot of a role.
pub open spec fn slot(reg: Registry, is_client: bool) -> Option<FuseContext> {
    if is_client {
        reg.client
    } else {
        reg.server
    }
}

/// `b` differs from `a` in the slot of `is_client` at most.
pub open spec fn other_role_kept(a: Registry, b: Registry, is_client: bool) -> bool {
    &&& b.formats == a.formats
    &&& b.client_mount_point == a.client_mount_point
    &&& b.server_mount_point == a.server_mount_point
    &&& slot(b, !is_client) == slot(a, !is_client)
}

impl Registry {
    pub open spec fn wf(&self) -> bool {
        &&& format_names(self.formats) == local_format_table()
        &&& self.client matches Some(c) ==> c.wf() && c.mount_point == self.client_mount_point
        &&& self.server matches Some(c) ==> c.wf() && c.mount_point == self.server_mount_point
    }

    pub open spec fn mount_point(&self, is_client: bool) -> String {
        if is_client {
            self.client_mount_point
        } else {
            self.server_mount_point
        }
    }

    /// A registry for application `app_name`, with neither role mounted. Each
    /// role mounts at `/tmp/<app_name>/cliprdr-client` or `-server`.
    pub fn new(app_name: &str) -> (r: Registry)
        ensures
            r.wf(),
            format_names(r.formats) == local_format_table(),
            r.client is None,
            r.server is None,
            r.client_mount_point@ == mount_point_of(app_name@, true),
            r.server_mount_point@ == mount_point_of(app_name@, false),
    {
        let client = String::from_str("/tmp/").concat(app_name).concat("/cliprdr-client");
        let server = String::from_str("/tmp/").concat(app_name).concat("/cliprdr-server");
        Registry { formats: remote_format_map(), client_mount_point: client, server_mount_point: server, client: None, server: None }
    }

    /// The context of a role, if mounted.
    pub fn context(&self, is_client: bool) -> (r: &Option<FuseContext>)
        ensures
            *r == slot(*self, is_client),
    {
        if is_client {
            &self.client
        } else {
            &self.server
        }
    }

    /// Takes the context of a role out of its slot.
    fn take_context(&mut self, is_client: bool) -> (r: Option<FuseContext>)
        ensures
            r == slot(*old(self), is_client),
            slot(*final(self), is_client) is None,
            other_role_kept(*old(self), *final(self), is_client),
    {
        let mut out: Option<FuseContext> = None;
        if is_client {
            std::mem::swap(&mut self.client, &mut out);
        } else {
            std::mem::swap(&mut self.server, &mut out);
        }
        out
    }

    /// Puts `ctx` in the slot of a role.
    fn put_context(&mut self, is_client: bool, ctx: Option<FuseContext>)
        ensures
            slot(*final(self), is_client) == ctx,
            other_role_kept(*old(self), *final(self), is_client),
    {
        if is_client {
            self.client = ctx;
        } else {
            self.server = ctx;
        }
    }
}

/// The mount point of a role, for scans that must not descend into it.
pub fn get_exclude_paths(reg: &Registry, is_client: bool) -> (r: String)
    ensures
        r == reg.mount_point(is_client),
{
    if is_client {
        reg.client_mount_point.clone()
    } else {
        reg.server_mount_point.clone()
    }
}

/// Whether the role is mounted.
pub fn is_fuse_context_inited(reg: &Registry, is_client: bool) -> (r: bool)
    ensures
        r == slot(*reg, is_client) is Some,
{
    if is_client {
        reg.client.is_some()
    } else {
        reg.server.is_some()
    }
}

/// Records the outcome of mounting a role. A mounted role stays as it is; an
/// unmounted one gets a fresh context if `mounted`, and fails with
/// `CliprdrInit` otherwise.
pub fn init_fuse_context(reg: &mut Registry, is_client: bool, mounted: bool) -> (r: Result<(), CliprdrError>)
    requires
        old(reg).wf(),
    ensures
        final(reg).wf(),
        other_role_kept(*old(reg), *final(reg), is_client),
        slot(*old(reg), is_client) is Some ==> r is Ok && *final(reg) == *old(reg),
        slot(*old(reg), is_client) is None && mounted ==> r is Ok && (slot(*final(reg), is_client) matches Some(c)
            && c.conn_id == 0 && c.tree.files@.len() == 0 && c.reads.reads@.len() == 0
            && c.reads.next_stream_id == 1 && c.reads.generation == 0),
        slot(*old(reg), is_client) is None && !mounted ==> r == Err::<(), CliprdrError>(CliprdrError::CliprdrInit)
            && *final(reg) == *old(reg),
{
    if is_fuse_context_inited(reg, is_client) {
        return Ok(());
    }
    if !mounted {
        return Err(CliprdrError::CliprdrInit);
    }
    let mount_point = get_exclude_paths(reg, is_client);
    reg.put_context(is_client, Some(FuseContext::new(mount_point)));
    Ok(())
}

/// Drops the context of a role.
pub fn uninit_fuse_context(reg: &mut Registry, is_client: bool)
    requires
        old(reg).wf(),
    ensures
        final(reg).wf(),
        slot(*final(reg), is_client) is None,
        other_role_kept(*old(reg), *final(reg), is_client),
{
    let _ = reg.take_context(is_client);
}

/// Publishes the list in `format_data` on a mounted role for connection
/// `conn_id`, and gives the paths of its top-level entries.
pub fn format_data_response_to_urls(reg: &mut Registry, is_client: bool, format_data: Vec<u8>, conn_id: i32, now: u64) -> (r: Result<Vec<String>, CliprdrError>)
    requires
        old(reg).wf(),
    ensures
        final(reg).wf(),
        other_role_kept(*old(reg), *final(reg), is_client),
        slot(*old(reg), is_client) is None ==> r == Err::<Vec<String>, CliprdrError>(CliprdrError::CliprdrInit)
            && *final(reg) == *old(reg),
        slot(*old(reg), is_client) is Some ==> {
            let a = slot(*old(reg), is_client)->0;
            &&& r is Ok <==> payload_valid(format_data@)
            &&& r is Err ==> r->Err_0 == CliprdrError::InvalidRequest && slot(*final(reg), is_client) == slot(*old(reg), is_client)
            &&& r matches Ok(urls) ==> slot(*final(reg), is_client) matches Some(b) && loaded(a, b, format_data@, conn_id, now)
                && urls_of(urls@, b.mount_point@, b.tree)
        },
{
    match reg.take_context(is_client) {
        None => Err(CliprdrError::CliprdrInit),
        Some(mut ctx) => {
            let r = ctx.format_data_response_to_urls(format_data, conn_id, now);
            reg.put_context(is_client, Some(ctx));
            r
        },
    }
}

/// Routes a message of the peer, received at time `now`, to the reads of a
/// role: a content response completes the waiting read with its stream id,
/// if any, and is dropped otherwise; other messages change nothing.
pub fn handle_file_content_response(reg: &mut Registry, is_client: bool, clip: ClipboardFile, now: u64) -> (r: Result<(), CliprdrError>)
    requires
        old(reg).wf(),
    ensures
        final(reg).wf(),
        other_role_kept(*old(reg), *final(reg), is_client),
        slot(*old(reg), is_client) is None ==> r == Err::<(), CliprdrError>(CliprdrError::CliprdrInit)
            && *final(reg) == *old(reg),
        slot(*old(reg), is_client) is Some ==> r is Ok && (slot(*final(reg), is_client) matches Some(b) && {
            let a = slot(*old(reg), is_client)->0;
            &&& b.tree == a.tree
            &&& b.conn_id == a.conn_id
            &&& b.mount_point == a.mount_point
            &&& match clip {
                ClipboardFile::FileContentsResponse { msg_flags, stream_id, requested_data } =>
                    fulfilled(a.reads, b.reads, stream_id, msg_flags, requested_data, now),
                _ => b.reads == a.reads,
            }
        }),
{
    match reg.take_context(is_client) {
        None => Err(CliprdrError::CliprdrInit),
        Some(mut ctx) => {
            match clip {
                ClipboardFile::FileContentsResponse { msg_flags, stream_id, requested_data } => {
                    let _ = ctx.reads.fulfill(stream_id, msg_flags, requested_data, now);
                },
                _ => {},
            }
            reg.put_context(is_client, Some(ctx));
            Ok(())
        },
    }
}

/// Empties the list of a mounted role, if `conn_id` is 0 or the connection
/// that published it; gives whether it did.
pub fn empty_local_files(reg: &mut Registry, is_client: bool, conn_id: i32, now: u64) -> (r: bool)
    requires
        old(reg).wf(),
    ensures
        final(reg).wf(),
        r == (slot(*old(reg), is_client) matches Some(a) && may_clear(a.conn_id, conn_id)),
        !r ==> *final(reg) == *old(reg),
        r ==> (slot(*final(reg), is_client) matches Some(b) && cleared(slot(*old(reg), is_client)->0, b, now)),
        other_role_kept(*old(reg), *final(reg), is_client),
{
    match reg.take_context(is_client) {
        None => false,
        Some(mut ctx) => {
            let r = ctx.empty_local_files(conn_id, now);
            reg.put_context(is_client, Some(ctx));
            r
        },
    }
}


/// Starts a read of `length` bytes at `offset` of node `id` of a mounted role
/// at time `now`, and gives the content request to send (`None`: nothing to
/// fetch).
pub fn start_read(reg: &mut Registry, is_client: bool, id: usize, offset: u64, length: u64, now: u64) -> (r: Result<Option<ClipboardFile>, CliprdrError>)
    requires
        old(reg).wf(),
    ensures
        final(reg).wf(),
        other_role_kept(*old(reg), *final(reg), is_client),
        slot(*old(reg), is_client) is None ==> r is Err && r->Err_0 == CliprdrError::CliprdrInit
            && *final(reg) == *old(reg),
        slot(*old(reg), is_client) is Some ==> (slot(*final(reg), is_client) matches Some(b) && {
            let a = slot(*old(reg), is_client)->0;
            &&& b.tree == a.tree
            &&& b.conn_id == a.conn_id
            &&& b.mount_point == a.mount_point
            &&& read_started(a.reads, b.reads, &a.tree, id, offset, length, now, r)
        }),
{
    match reg.take_context(is_client) {
        None => Err(CliprdrError::CliprdrInit),
        Some(mut ctx) => {
            let r = ctx.reads.start_read(&ctx.tree, id, offset, length, now);
            reg.put_context(is_client, Some(ctx));
            r
        },
    }
}

/// Polls the read with this stream id on a mounted role at time `now`.
pub fn poll_read(reg: &mut Registry, is_client: bool, stream_id: i32, now: u64) -> (r: Option<Result<Vec<u8>, CliprdrError>>)
    requires
        old(reg).wf(),
    ensures
        final(reg).wf(),
        other_role_kept(*old(reg), *final(reg), is_client),
        slot(*old(reg), is_client) is None ==> r == Some(Err::<Vec<u8>, CliprdrError>(CliprdrError::CliprdrInit))
            && *final(reg) == *old(reg),
        slot(*old(reg), is_client) is Some ==> (slot(*final(reg), is_client) matches Some(b) && {
            let a = slot(*old(reg), is_client)->0;
            &&& b.tree == a.tree
            &&& b.conn_id == a.conn_id
            &&& b.mount_point == a.mount_point
            &&& polled(a.reads, b.reads, stream_id, now, r)
        }),
{
    match reg.take_context(is_client) {
        None => Some(Err(CliprdrError::CliprdrInit)),
        Some(mut ctx) => {
            let r = ctx.reads.poll(stream_id, now);
            reg.put_context(is_client, Some(ctx));
            r
        },
    }
}

/// Withdraws the read with this stream id on a mounted role, after its
/// request could not be sent.
pub fn cancel_read(reg: &mut Registry, is_client: bool, stream_id: i32)
    requires
        old(reg).wf(),
    ensures
        final(reg).wf(),
        other_role_kept(*old(reg), *final(reg), is_client),
        slot(*old(reg), is_client) is None ==> *final(reg) == *old(reg),
        slot(*old(reg), is_client) is Some ==> (slot(*final(reg), is_client) matches Some(b) && {
            let a = slot(*old(reg), is_client)->0;
            &&& b.tree == a.tree
            &&& b.conn_id == a.conn_id
            &&& b.mount_point == a.mount_point
            &&& b.reads.generation == a.reads.generation
            &&& b.reads.next_stream_id == a.reads.next_stream_id
            &&& !a.reads.has_stream(stream_id) ==> b.reads == a.reads
            &&& forall|j: int|
                0 <= j < a.reads.reads@.len() && (#[trigger] a.reads.reads@[j]).stream_id == stream_id
                    ==> b.reads.reads@ == a.reads.reads@.remove(j)
        }),
{
    match reg.take_context(is_client) {
        None => {
            reg.put_context(is_client, None);
        },
        Some(mut ctx) => {
            ctx.reads.cancel(stream_id);
            reg.put_context(is_client, Some(ctx));
        },
    }
}

/// Loading a list and querying a file node gives back the size that the
/// node's record declares.
pub proof fn lemma_loaded_file_size(a: FuseContext, b: FuseContext, data: Seq<u8>, conn_id: i32, now: u64, id: int)
    requires
        loaded(a, b, data, conn_id, now),
        0 <= id < b.tree.nodes@.len(),
        !b.tree.nodes@[id].is_dir,
    ensures
        b.tree.nodes@[id].desc_index matches Some(k) && k < record_count(data)
            && b.tree.nodes@[id].size == record_size(data, record_base(k as int)),
{
    lemma_file_node_from_descriptor(&b.tree, id);
    let k = b.tree.nodes@[id].desc_index->0 as int;
    assert(describes(data, record_base(k), conn_id, k, b.tree.files@[k]));
}

/// Emptying a list at time `now` leaves no top-level entry; every read that
/// was still waiting within its deadline then resolves with
/// `StaleGeneration`, whenever it is polled, while a read whose deadline had
/// already passed is left as it was, to time out.
pub proof fn lemma_cleared_resolves_pending(a: FuseContext, b: FuseContext, now: u64, later: u64)
    requires
        a.wf(),
        cleared(a, b, now),
        now <= later,
    ensures
        child_names(b.tree.nodes@, 0).len() == 0,
        forall|j: int|
            0 <= j < a.reads.reads@.len() && completable(#[trigger] a.reads.reads@[j], now) ==> read_outcome(
                b.reads.reads@[j],
                later,
            ) == Some(Err::<Seq<u8>, CliprdrError>(CliprdrError::StaleGeneration)),
        forall|j: int|
            0 <= j < a.reads.reads@.len() && (#[trigger] a.reads.reads@[j]).state is Waiting && now
                >= a.reads.reads@[j].deadline ==> b.reads.reads@[j] == a.reads.reads@[j] && read_outcome(
                b.reads.reads@[j],
                later,
            ) == Some(Err::<Seq<u8>, CliprdrError>(CliprdrError::IoTimeout)),
{
    lemma_empty_list_empty_root(&b.tree);
    assert forall|j: int|
        0 <= j < a.reads.reads@.len() && completable(#[trigger] a.reads.reads@[j], now) implies read_outcome(
            b.reads.reads@[j],
            later,
        ) == Some(Err::<Seq<u8>, CliprdrError>(CliprdrError::StaleGeneration)) by {
        assert(b.reads.reads@[j].state is Stale);
    }    assert forall|j: int|
        0 <= j < a.reads.reads@.len() && (#[trigger] a.reads.reads@[j]).state is Waiting && now
            >= a.reads.reads@[j].deadline implies b.reads.reads@[j] == a.reads.reads@[j] by {
        assert(same_request(a.reads.reads@[j], b.reads.reads@[j]));
    }
}

} // verus!
