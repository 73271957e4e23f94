use vstd::prelude::*;
use crate::descriptor::FileDescriptor;
use crate::error::CliprdrError;

verus! {

/// A node of the synthesized directory tree.
pub struct FsNode {
    /// Last segment of the node's path (empty for the root).
    pub name: String,
    /// Id of the parent node (the root is its own parent).
    pub parent: usize,
    pub is_dir: bool,
    /// Size in bytes; 0 for directories.
    pub size: u64,
    /// Last write time in 100-ns ticks since the Unix epoch.
    pub modified: u64,
    /// Index of the descriptor that set this node, or `None` for a directory
    /// implied by longer paths.
    pub desc_index: Option<usize>,
    /// Ids of the children, in order of creation.
    pub children: Vec<usize>,
    /// Full path of the node.
    pub path: Ghost<Seq<Seq<char>>>,
    /// Index of the descriptor whose path first needed this node.
    pub first: Ghost<int>,
}

/// The tree of one generation of a published file list. Node ids index
/// `nodes`; id 0 is the root.
pub struct FsTree {
    pub generation: u64,
    pub files: Vec<FileDescriptor>,
    pub nodes: Vec<FsNode>,
}

pub open spec fn fpath(files: Seq<FileDescriptor>, k: int) -> Seq<Seq<char>> {
    files[k].path()
}

/// Whether `p` is a non-empty prefix of the path of one of the first `n` descriptors.
pub open spec fn is_listed_prefix(files: Seq<FileDescriptor>, n: int, p: Seq<Seq<char>>) -> bool {
    exists|k: int, m: int|
        0 <= k < n && 1 <= m <= fpath(files, k).len() && p == #[trigger] fpath(files, k).take(m)
}

pub open spec fn has_node_at(nodes: Seq<FsNode>, p: Seq<Seq<char>>) -> bool {
    exists|i: int| 0 <= i < nodes.len() && (#[trigger] nodes[i]).path@ == p
}

/// Root and parent links: each non-root node sits under the node whose path
/// is its own minus the last segment, and is named by that last segment.
pub open spec fn links_ok(nodes: Seq<FsNode>) -> bool {
    &&& 1 <= nodes.len() <= usize::MAX
    &&& nodes[0].path@ == Seq::<Seq<char>>::empty()
    &&& nodes[0].is_dir
    &&& nodes[0].desc_index is None
    &&& nodes[0].size == 0
    &&& forall|i: int|
        1 <= i < nodes.len() ==> {
            &&& #[trigger] nodes[i].parent < nodes.len()
            &&& nodes[i].path@.len() >= 1
            &&& nodes[nodes[i].parent as int].path@ == nodes[i].path@.drop_last()
            &&& nodes[i].path@.last() == nodes[i].name@
        }
}

/// No two nodes share a path.
pub open spec fn paths_unique(nodes: Seq<FsNode>) -> bool {
    forall|i: int, j: int|
        0 <= i < nodes.len() && 0 <= j < nodes.len() && i != j ==> (#[trigger] nodes[i]).path@
            != (#[trigger] nodes[j]).path@
}

/// The children lists hold exactly the nodes whose parent is that node, once
/// each, in order of creation (node ids grow as nodes are created).
pub open spec fn children_ok(nodes: Seq<FsNode>) -> bool {
    &&& forall|i: int, t: int, u: int|
        0 <= i < nodes.len() && 0 <= t < u < nodes[i].children@.len() ==> #[trigger] nodes[i].children@[t]
            < #[trigger] nodes[i].children@[u]
    &&& forall|i: int, t: int|
        0 <= i < nodes.len() && 0 <= t < nodes[i].children@.len() ==> {
            let c = #[trigger] nodes[i].children@[t];
            &&& 1 <= c < nodes.len()
            &&& nodes[c as int].parent == i
        }
    &&& forall|i: int, t: int, u: int|
        0 <= i < nodes.len() && 0 <= t < nodes[i].children@.len() && 0 <= u
            < nodes[i].children@.len() && t != u ==> #[trigger] nodes[i].children@[t]
            != #[trigger] nodes[i].children@[u]
    &&& forall|i: int|
        1 <= i < nodes.len() ==> nodes[(#[trigger] nodes[i].parent) as int].children@.contains(
            i as usize,
        )
}

/// Node paths are exactly the non-empty prefixes of the first `n` descriptor paths.
pub open spec fn covers(nodes: Seq<FsNode>, files: Seq<FileDescriptor>, n: int) -> bool {
    &&& forall|i: int| 1 <= i < nodes.len() ==> is_listed_prefix(files, n, (#[trigger] nodes[i]).path@)
    &&& forall|k: int, m: int|
        0 <= k < n && 1 <= m <= fpath(files, k).len() ==> has_node_at(
            nodes,
            #[trigger] fpath(files, k).take(m),
        )
}

/// The attributes of `nd` come from the last of the first `n` descriptors
/// with its path; a node that none of them names is a directory of size 0.
pub open spec fn node_attrs_ok(nd: FsNode, files: Seq<FileDescriptor>, n: int) -> bool {
    match nd.desc_index {
        Some(k) => {
            &&& 0 <= k < n
            &&& fpath(files, k as int) == nd.path@
            &&& nd.is_dir == files[k as int].is_dir
            &&& nd.size == (if files[k as int].is_dir { 0 } else { files[k as int].size })
            &&& nd.modified == files[k as int].modified
            &&& forall|k2: int| k < k2 < n ==> #[trigger] fpath(files, k2) != nd.path@
        },
        None => {
            &&& nd.is_dir
            &&& nd.size == 0
            &&& nd.modified == 0
            &&& forall|k2: int|
                0 <= k2 < n && fpath(files, k2).len() >= 1 ==> #[trigger] fpath(files, k2) != nd.path@
        },
    }
}

pub open spec fn attrs_ok(nodes: Seq<FsNode>, files: Seq<FileDescriptor>, n: int) -> bool {
    forall|i: int| 0 <= i < nodes.len() ==> node_attrs_ok(#[trigger] nodes[i], files, n)
}

/// Whether `p` is a prefix of `q`.
pub open spec fn is_path_prefix(p: Seq<Seq<char>>, q: Seq<Seq<char>>) -> bool {
    p.len() <= q.len() && q.take(p.len() as int) == p
}

/// Each non-root node was created for the first descriptor (of the first
/// `n`) whose path passes through it, and nodes were created in the order of
/// those descriptors.
pub open spec fn created_in_order(nodes: Seq<FsNode>, files: Seq<FileDescriptor>, n: int) -> bool {
    &&& forall|i: int|
        1 <= i < nodes.len() ==> {
            &&& 0 <= (#[trigger] nodes[i].first@) < n
            &&& is_path_prefix(nodes[i].path@, fpath(files, nodes[i].first@))
            &&& forall|k: int| 0 <= k < nodes[i].first@ ==> !is_path_prefix(nodes[i].path@, #[trigger] fpath(files, k))
        }
    &&& forall|i: int, j: int| 1 <= i < j < nodes.len() ==> #[trigger] nodes[i].first@ <= #[trigger] nodes[j].first@
}

#[verifier::opaque]
pub open spec fn nodes_wf(nodes: Seq<FsNode>, files: Seq<FileDescriptor>, n: int) -> bool {
    &&& links_ok(nodes)
    &&& paths_unique(nodes)
    &&& children_ok(nodes)
    &&& created_in_order(nodes, files, n)
    &&& covers(nodes, files, n)
    &&& attrs_ok(nodes, files, n)
}

impl FsTree {
    pub open spec fn wf(&self) -> bool {
        nodes_wf(self.nodes@, self.files@, self.files@.len() as int)
    }
}


/// Every node of `a` keeps its path in `b`.
pub open spec fn keeps_paths(a: Seq<FsNode>, b: Seq<FsNode>) -> bool {
    &&& a.len() <= b.len()
    &&& forall|i: int| 0 <= i < a.len() ==> (#[trigger] b[i]).path@ == a[i].path@
}

proof fn lemma_has_node_kept(a: Seq<FsNode>, b: Seq<FsNode>, p: Seq<Seq<char>>)
    requires
        keeps_paths(a, b),
        has_node_at(a, p),
    ensures
        has_node_at(b, p),
{
    let i = choose|i: int| 0 <= i < a.len() && (#[trigger] a[i]).path@ == p;
    assert(b[i].path@ == p);
}

proof fn lemma_covered_kept(a: Seq<FsNode>, b: Seq<FsNode>, files: Seq<FileDescriptor>, n: int)
    requires
        keeps_paths(a, b),
        forall|k: int, m: int|
            0 <= k < n && 1 <= m <= fpath(files, k).len() ==> has_node_at(
                a,
                #[trigger] fpath(files, k).take(m),
            ),
    ensures
        forall|k: int, m: int|
            0 <= k < n && 1 <= m <= fpath(files, k).len() ==> has_node_at(
                b,
                #[trigger] fpath(files, k).take(m),
            ),
{
    assert forall|k: int, m: int| 0 <= k < n && 1 <= m <= fpath(files, k).len() implies has_node_at(
        b,
        #[trigger] fpath(files, k).take(m),
    ) by {
        lemma_has_node_kept(a, b, fpath(files, k).take(m));
    }
}

/// The child of `cur` named `name`, if any.
fn find_child(nodes: &Vec<FsNode>, cur: usize, name: &String) -> (r: Option<usize>)
    requires
        cur < nodes@.len(),
        forall|t: int| 0 <= t < nodes@[cur as int].children@.len() ==> #[trigger] nodes@[cur as int].children@[t] < nodes@.len(),
    ensures
        r matches Some(c) ==> nodes@[cur as int].children@.contains(c) && c < nodes@.len()
            && nodes@[c as int].name@ == name@,
        r is None ==> forall|t: int|
            0 <= t < nodes@[cur as int].children@.len() ==> nodes@[nodes@[cur as int].children@[t] as int].name@
                != name@,
{
    let children = &nodes[cur].children;
    let mut t: usize = 0;
    while t < children.len()
        invariant
            cur < nodes@.len(),
            forall|t: int| 0 <= t < nodes@[cur as int].children@.len() ==> #[trigger] nodes@[cur as int].children@[t] < nodes@.len(),
            children == nodes@[cur as int].children,
            t <= children@.len(),
            forall|u: int| 0 <= u < t ==> nodes@[children@[u] as int].name@ != name@,
        decreases children@.len() - t,
    {
        let c = children[t];
        assert(nodes@[cur as int].children@[t as int] == c);
        if nodes[c].name.eq(name) {
            return Some(c);
        }
        t = t + 1;
    }
    None
}


proof fn lemma_path_split(p: Seq<Seq<char>>)
    requires
        p.len() >= 1,
    ensures
        p == p.drop_last().push(p.last()),
{
    assert(p =~= p.drop_last().push(p.last()));
}

pub open spec fn covered_before(nodes: Seq<FsNode>, files: Seq<FileDescriptor>, n: int) -> bool {
    forall|k: int, m: int|
        0 <= k < n && 1 <= m <= fpath(files, k).len() ==> has_node_at(
            nodes,
            #[trigger] fpath(files, k).take(m),
        )
}

/// State of the walk that inserts the path of descriptor `i`: the first `m`
/// segments have nodes, the last of which is `cur`.
#[verifier::opaque]
pub open spec fn walk_ok(nodes: Seq<FsNode>, files: Seq<FileDescriptor>, i: int, cur: int, m: int) -> bool {
    &&& 0 <= i < files.len()
    &&& 0 <= m <= fpath(files, i).len()
    &&& 0 <= cur < nodes.len()
    &&& nodes[cur].path@ == fpath(files, i).take(m)
    &&& links_ok(nodes)
    &&& paths_unique(nodes)
    &&& children_ok(nodes)
    &&& created_in_order(nodes, files, i + 1)
    &&& attrs_ok(nodes, files, i)
    &&& forall|j: int| 1 <= j < nodes.len() ==> is_listed_prefix(files, i + 1, (#[trigger] nodes[j]).path@)
    &&& covered_before(nodes, files, i)
    &&& forall|mm: int| 1 <= mm <= m ==> has_node_at(nodes, #[trigger] fpath(files, i).take(mm))
}

proof fn lemma_walk_children(nodes: Seq<FsNode>, files: Seq<FileDescriptor>, i: int, cur: int, m: int)
    requires
        walk_ok(nodes, files, i, cur, m),
    ensures
        0 <= cur < nodes.len(),
        0 <= i < files.len(),
        0 <= m <= fpath(files, i).len(),
        forall|t: int| 0 <= t < nodes[cur].children@.len() ==> #[trigger] nodes[cur].children@[t] < nodes.len(),
{
    reveal(walk_ok);
    assert forall|t: int| 0 <= t < nodes[cur].children@.len() implies #[trigger] nodes[cur].children@[t] < nodes.len() by {
        let c = nodes[cur].children@[t];
    }
}

proof fn lemma_walk_start(nodes: Seq<FsNode>, files: Seq<FileDescriptor>, i: int)
    requires
        0 <= i < files.len(),
        nodes_wf(nodes, files, i),
    ensures
        walk_ok(nodes, files, i, 0, 0),
{
    reveal(walk_ok);
    reveal(nodes_wf);
    assert(fpath(files, i).take(0) =~= Seq::<Seq<char>>::empty());
    assert forall|j: int| 1 <= j < nodes.len() implies is_listed_prefix(
        files,
        i + 1,
        (#[trigger] nodes[j]).path@,
    ) by {
        assert(is_listed_prefix(files, i, nodes[j].path@));
    }
}

proof fn lemma_skip_empty_path(nodes: Seq<FsNode>, files: Seq<FileDescriptor>, i: int)
    requires
        0 <= i < files.len(),
        fpath(files, i).len() == 0,
        nodes_wf(nodes, files, i),
    ensures
        nodes_wf(nodes, files, i + 1),
{
    reveal(nodes_wf);
    assert forall|j: int| 1 <= j < nodes.len() implies is_listed_prefix(
        files,
        i + 1,
        (#[trigger] nodes[j]).path@,
    ) by {
        assert(is_listed_prefix(files, i, nodes[j].path@));
    }
    assert forall|k: int, m: int|
        0 <= k < i + 1 && 1 <= m <= fpath(files, k).len() implies has_node_at(
        nodes,
        #[trigger] fpath(files, k).take(m),
    ) by {
        assert(k < i);
    }
    assert forall|j: int| 0 <= j < nodes.len() && (#[trigger] nodes[j]).desc_index is Some implies nodes[j].path@ != fpath(files, i) by {
        if j != 0 {
            assert(nodes[j].path@.len() >= 1);
        }
    }
}

proof fn lemma_walk_found(nodes: Seq<FsNode>, files: Seq<FileDescriptor>, i: int, cur: int, m: int, c: int)
    requires
        walk_ok(nodes, files, i, cur, m),
        m < fpath(files, i).len(),
        0 <= c < nodes.len(),
        nodes[cur].children@.contains(c as usize),
        nodes[c].name@ == files[i].segments@[m]@,
    ensures
        walk_ok(nodes, files, i, c, m + 1),
{
    reveal(walk_ok);
    let p = fpath(files, i);
    let q = p.take(m + 1);
    assert(q.drop_last() =~= p.take(m));
    assert(q.last() == files[i].segments@[m]@);
    let t = choose|t: int| 0 <= t < nodes[cur].children@.len() && nodes[cur].children@[t] == c as usize;
    assert(nodes[cur].children@[t] == c as usize);
    assert(c != 0);
    assert(nodes[c].parent == cur);
    lemma_path_split(nodes[c].path@);
    lemma_path_split(q);
    assert(nodes[c].path@ == q);
    assert forall|mm: int| 1 <= mm <= m + 1 implies has_node_at(nodes, #[trigger] p.take(mm)) by {
        if mm == m + 1 {
            assert(nodes[c].path@ == p.take(mm));
        }
    }
}

/// `b` is `a` with node `id`, named `name` with path `q`, appended under `cur`.
pub open spec fn child_appended(a: Seq<FsNode>, b: Seq<FsNode>, cur: int, id: int, q: Seq<Seq<char>>, name: Seq<char>) -> bool {
    &&& id == a.len()
    &&& b.len() == a.len() + 1
    &&& b.len() <= usize::MAX
    &&& forall|j: int| 0 <= j < a.len() && j != cur ==> #[trigger] b[j] == a[j]
    &&& b[cur].path == a[cur].path
    &&& b[cur].parent == a[cur].parent
    &&& b[cur].name == a[cur].name
    &&& b[cur].is_dir == a[cur].is_dir
    &&& b[cur].size == a[cur].size
    &&& b[cur].modified == a[cur].modified
    &&& b[cur].desc_index == a[cur].desc_index
    &&& b[cur].first == a[cur].first
    &&& b[cur].children@ == a[cur].children@.push(id as usize)
    &&& b[id].path@ == q
    &&& b[id].name@ == name
    &&& b[id].parent == cur
    &&& b[id].is_dir
    &&& b[id].size == 0
    &&& b[id].modified == 0
    &&& b[id].desc_index is None
    &&& b[id].children@.len() == 0
}

proof fn lemma_new_path_absent(a: Seq<FsNode>, cur: int, q: Seq<Seq<char>>)
    requires
        links_ok(a),
        paths_unique(a),
        children_ok(a),
        0 <= cur < a.len(),
        q.len() >= 1,
        a[cur].path@ == q.drop_last(),
        forall|t: int| 0 <= t < a[cur].children@.len() ==> a[a[cur].children@[t] as int].name@ != q.last(),
    ensures
        forall|j: int| 0 <= j < a.len() ==> (#[trigger] a[j]).path@ != q,
{
    assert forall|j: int| 0 <= j < a.len() implies (#[trigger] a[j]).path@ != q by {
        if a[j].path@ == q {
            assert(j != 0);
            let pj = a[j].parent as int;
            assert(a[pj].path@ == a[cur].path@);
            assert(pj == cur);
            assert(a[cur].children@.contains(j as usize));
            let t = choose|t: int| 0 <= t < a[cur].children@.len() && a[cur].children@[t] == j as usize;
            assert(a[a[cur].children@[t] as int].name@ != q.last());
        }
    }
}

proof fn lemma_shape_after_append(a: Seq<FsNode>, b: Seq<FsNode>, cur: int, id: int, q: Seq<Seq<char>>, name: Seq<char>)
    requires
        links_ok(a),
        paths_unique(a),
        children_ok(a),
        0 <= cur < a.len(),
        q.len() >= 1,
        a[cur].path@ == q.drop_last(),
        q.last() == name,
        forall|j: int| 0 <= j < a.len() ==> (#[trigger] a[j]).path@ != q,
        child_appended(a, b, cur, id, q, name),
    ensures
        links_ok(b),
        paths_unique(b),
        children_ok(b),
        keeps_paths(a, b),
{
    assert(links_ok(b)) by {
        assert forall|j: int| 1 <= j < b.len() implies {
            &&& #[trigger] b[j].parent < b.len()
            &&& b[j].path@.len() >= 1
            &&& b[b[j].parent as int].path@ == b[j].path@.drop_last()
            &&& b[j].path@.last() == b[j].name@
        } by {
            if j < id {
                assert(a[j].parent < a.len());
            }
        }
    }
    assert(paths_unique(b));
    assert(children_ok(b)) by {
        assert forall|j: int, t: int| 0 <= j < b.len() && 0 <= t < b[j].children@.len() implies {
            let c = #[trigger] b[j].children@[t];
            &&& 1 <= c < b.len()
            &&& b[c as int].parent == j
        } by {
            if j != cur {
                let c = a[j].children@[t];
                assert(b[j] == a[j]);
                assert(a[c as int].parent == j);
                if c as int != cur {
                    assert(b[c as int] == a[c as int]);
                }
            } else if t < a[cur].children@.len() {
                let c = a[j].children@[t];
                assert(b[j].children@[t] == c);
                assert(a[c as int].parent == j);
                if c as int != cur {
                    assert(b[c as int] == a[c as int]);
                }
            } else {
                assert(b[j].children@[t] == id);
            }
        }
        assert forall|j: int| 1 <= j < b.len() implies b[(#[trigger] b[j].parent) as int].children@.contains(j as usize) by {
            if j < id {
                let pj = a[j].parent as int;
                assert(a[pj].children@.contains(j as usize));
                let t = choose|t: int| 0 <= t < a[pj].children@.len() && a[pj].children@[t] == j as usize;
                assert(b[pj].children@[t] == j as usize);
            } else {
                assert(b[cur].children@.last() == id);
            }
        }
    }
}

proof fn lemma_attrs_after_append(a: Seq<FsNode>, b: Seq<FsNode>, files: Seq<FileDescriptor>, i: int, cur: int, id: int, q: Seq<Seq<char>>, name: Seq<char>)
    requires
        0 <= cur < a.len(),
        attrs_ok(a, files, i),
        covered_before(a, files, i),
        forall|j: int| 0 <= j < a.len() ==> (#[trigger] a[j]).path@ != q,
        child_appended(a, b, cur, id, q, name),
    ensures
        attrs_ok(b, files, i),
{
    assert forall|k2: int| 0 <= k2 < i && fpath(files, k2).len() >= 1 implies #[trigger] fpath(files, k2) != q by {
        let l = fpath(files, k2).len() as int;
        assert(fpath(files, k2).take(l) =~= fpath(files, k2));
        assert(has_node_at(a, fpath(files, k2).take(l)));
    }
    assert forall|j: int| 0 <= j < b.len() implies node_attrs_ok(#[trigger] b[j], files, i) by {
        if j < id {
            assert(node_attrs_ok(a[j], files, i));
        }
    }
}

proof fn lemma_created_after_append(a: Seq<FsNode>, b: Seq<FsNode>, files: Seq<FileDescriptor>, i: int, cur: int, id: int, q: Seq<Seq<char>>, name: Seq<char>)
    requires
        0 <= i < files.len(),
        0 <= cur < a.len(),
        created_in_order(a, files, i + 1),
        covered_before(a, files, i),
        1 <= q.len() <= fpath(files, i).len(),
        q == fpath(files, i).take(q.len() as int),
        forall|j: int| 0 <= j < a.len() ==> (#[trigger] a[j]).path@ != q,
        child_appended(a, b, cur, id, q, name),
        b[id].first@ == i,
    ensures
        created_in_order(b, files, i + 1),
{
    assert forall|j: int| 0 <= j < a.len() implies (#[trigger] b[j]).first == a[j].first && b[j].path == a[j].path by {
        if j != cur {
            assert(b[j] == a[j]);
        }
    }
    assert forall|k: int| 0 <= k < i implies !is_path_prefix(q, #[trigger] fpath(files, k)) by {
        if is_path_prefix(q, fpath(files, k)) {
            assert(has_node_at(a, fpath(files, k).take(q.len() as int)));
        }
    }
    assert forall|j: int| 1 <= j < b.len() implies {
        &&& 0 <= (#[trigger] b[j].first@) < i + 1
        &&& is_path_prefix(b[j].path@, fpath(files, b[j].first@))
        &&& forall|k: int| 0 <= k < b[j].first@ ==> !is_path_prefix(b[j].path@, #[trigger] fpath(files, k))
    } by {
        if j < id {
            assert(a[j].first@ == b[j].first@);
        }
    }
    assert forall|x: int, y: int| 1 <= x < y < b.len() implies #[trigger] b[x].first@ <= #[trigger] b[y].first@ by {
        if y < id {
            assert(a[x].first@ <= a[y].first@);
        } else {
            assert(0 <= a[x].first@ < i + 1);
        }
    }
}

proof fn lemma_walk_created(a: Seq<FsNode>, b: Seq<FsNode>, files: Seq<FileDescriptor>, i: int, cur: int, m: int, id: int)
    requires
        walk_ok(a, files, i, cur, m),
        m < fpath(files, i).len(),
        forall|t: int|
            0 <= t < a[cur].children@.len() ==> a[a[cur].children@[t] as int].name@
                != files[i].segments@[m]@,
        child_appended(a, b, cur, id, fpath(files, i).take(m + 1), files[i].segments@[m]@),
        b[id].first@ == i,
    ensures
        walk_ok(b, files, i, id, m + 1),
{
    reveal(walk_ok);
    let p = fpath(files, i);
    let q = p.take(m + 1);
    let name = files[i].segments@[m]@;
    assert(q.drop_last() =~= p.take(m));
    assert(q.last() == name);
    lemma_new_path_absent(a, cur, q);
    lemma_shape_after_append(a, b, cur, id, q, name);
    lemma_attrs_after_append(a, b, files, i, cur, id, q, name);
    assert(q.len() == m + 1);
    assert(q == fpath(files, i).take(q.len() as int));
    lemma_created_after_append(a, b, files, i, cur, id, q, name);
    lemma_covered_kept(a, b, files, i);
    assert forall|mm: int| 1 <= mm <= m + 1 implies has_node_at(b, #[trigger] p.take(mm)) by {
        if mm <= m {
            lemma_has_node_kept(a, b, p.take(mm));
        } else {
            assert(b[id].path@ == p.take(mm));
        }
    }
    assert(is_listed_prefix(files, i + 1, q));
    assert forall|j: int| 1 <= j < b.len() implies is_listed_prefix(files, i + 1, (#[trigger] b[j]).path@) by {
        if j < id {
            assert(b[j].path@ == a[j].path@);
        }
    }
}

/// Appends a directory node for segment `m` under `cur`, which has no child of that name.
fn create_child(nodes: &mut Vec<FsNode>, files: &Vec<FileDescriptor>, i: usize, cur: usize, m: usize) -> (id: usize)
    requires
        walk_ok(old(nodes)@, files@, i as int, cur as int, m as int),
        m < fpath(files@, i as int).len(),
        forall|t: int|
            0 <= t < old(nodes)@[cur as int].children@.len() ==> old(nodes)@[old(nodes)@[cur as int].children@[t] as int].name@
                != files@[i as int].segments@[m as int]@,
    ensures
        walk_ok(final(nodes)@, files@, i as int, id as int, m + 1),
{
    proof {
        lemma_walk_children(nodes@, files@, i as int, cur as int, m as int);
    }
    let ghost q = fpath(files@, i as int).take(m + 1);
    let ghost old_nodes = nodes@;
    let id = nodes.len();
    let node = FsNode {
        name: files[i].segments[m].clone(),
        parent: cur,
        is_dir: true,
        size: 0,
        modified: 0,
        desc_index: None,
        children: Vec::new(),
        path: Ghost(q),
        first: Ghost(i as int),
    };
    nodes.push(node);
    nodes[cur].children.push(id);
    assert(nodes@.len() == nodes.len());
    proof {
        lemma_walk_created(old_nodes, nodes@, files@, i as int, cur as int, m as int, id as int);
    }
    id
}

/// Moves the walk one segment down, creating the directory node if needed.
fn walk_step(nodes: &mut Vec<FsNode>, files: &Vec<FileDescriptor>, i: usize, cur: usize, m: usize) -> (next: usize)
    requires
        walk_ok(old(nodes)@, files@, i as int, cur as int, m as int),
        m < fpath(files@, i as int).len(),
    ensures
        walk_ok(final(nodes)@, files@, i as int, next as int, m + 1),
{
    proof {
        lemma_walk_children(nodes@, files@, i as int, cur as int, m as int);
    }
    assert(files@[i as int].segments@.len() == fpath(files@, i as int).len());
    match find_child(nodes, cur, &files[i].segments[m]) {
        Some(c) => {
            proof {
                lemma_walk_found(nodes@, files@, i as int, cur as int, m as int, c as int);
            }
            c
        },
        None => create_child(nodes, files, i, cur, m),
    }
}

/// `b` is `a` with node `cur` given the attributes of descriptor `i`.
pub open spec fn attributes_set(a: Seq<FsNode>, b: Seq<FsNode>, files: Seq<FileDescriptor>, i: int, cur: int) -> bool {
    &&& b.len() == a.len()
    &&& forall|j: int| 0 <= j < a.len() && j != cur ==> #[trigger] b[j] == a[j]
    &&& b[cur].path == a[cur].path
    &&& b[cur].parent == a[cur].parent
    &&& b[cur].name == a[cur].name
    &&& b[cur].children == a[cur].children
    &&& b[cur].first == a[cur].first
    &&& b[cur].desc_index == Some(i as usize)
    &&& b[cur].is_dir == files[i].is_dir
    &&& b[cur].size == (if files[i].is_dir { 0 } else { files[i].size })
    &&& b[cur].modified == files[i].modified
}

/// `b` has the nodes of `a` with the same paths, names, parents and children.
pub open spec fn same_shape(a: Seq<FsNode>, b: Seq<FsNode>) -> bool {
    &&& b.len() == a.len()
    &&& b[0] == a[0]
    &&& forall|j: int|
        0 <= j < a.len() ==> {
            &&& (#[trigger] b[j]).path == a[j].path
            &&& b[j].first == a[j].first
            &&& b[j].parent == a[j].parent
            &&& b[j].name == a[j].name
            &&& b[j].children == a[j].children
        }
}

proof fn lemma_same_shape(a: Seq<FsNode>, b: Seq<FsNode>)
    requires
        same_shape(a, b),
        links_ok(a),
        paths_unique(a),
        children_ok(a),
    ensures
        links_ok(b),
        paths_unique(b),
        children_ok(b),
        keeps_paths(a, b),
{
    assert(links_ok(b)) by {
        assert forall|j: int| 1 <= j < b.len() implies {
            &&& #[trigger] b[j].parent < b.len()
            &&& b[j].path@.len() >= 1
            &&& b[b[j].parent as int].path@ == b[j].path@.drop_last()
            &&& b[j].path@.last() == b[j].name@
        } by {
            assert(a[j].parent < a.len());
        }
    }
    assert(children_ok(b)) by {
        assert forall|j: int, t: int| 0 <= j < b.len() && 0 <= t < b[j].children@.len() implies {
            let c = #[trigger] b[j].children@[t];
            &&& 1 <= c < b.len()
            &&& b[c as int].parent == j
        } by {
            let c = a[j].children@[t];
            assert(a[c as int].parent == j);
        }
        assert forall|j: int| 1 <= j < b.len() implies b[(#[trigger] b[j].parent) as int].children@.contains(
            j as usize,
        ) by {
            assert(a[a[j].parent as int].children@.contains(j as usize));
        }
    }
}

proof fn lemma_node_attrs_extend(nd: FsNode, files: Seq<FileDescriptor>, i: int)
    requires
        0 <= i < files.len(),
        node_attrs_ok(nd, files, i),
        fpath(files, i) != nd.path@,
    ensures
        node_attrs_ok(nd, files, i + 1),
{
    match nd.desc_index {
        Some(k) => {
            assert forall|k2: int| k < k2 < i + 1 implies #[trigger] fpath(files, k2) != nd.path@ by {
                if k2 < i {
                }
            }
        },
        None => {
            assert forall|k2: int| 0 <= k2 < i + 1 && fpath(files, k2).len() >= 1 implies #[trigger] fpath(files, k2) != nd.path@ by {
                if k2 < i {
                }
            }
        },
    }
}

proof fn lemma_attrs_after_set(a: Seq<FsNode>, b: Seq<FsNode>, files: Seq<FileDescriptor>, i: int, cur: int)
    requires
        0 <= i < files.len(),
        i <= usize::MAX,
        0 <= cur < a.len(),
        a[cur].path@ == fpath(files, i),
        fpath(files, i).len() >= 1,
        paths_unique(a),
        attrs_ok(a, files, i),
        attributes_set(a, b, files, i, cur),
    ensures
        attrs_ok(b, files, i + 1),
{
    assert forall|j: int| 0 <= j < b.len() implies node_attrs_ok(#[trigger] b[j], files, i + 1) by {
        if j != cur {
            assert(a[j].path@ != a[cur].path@);
            assert(node_attrs_ok(a[j], files, i));
            lemma_node_attrs_extend(a[j], files, i);
        } else {
            assert(b[j].desc_index == Some(i as usize));
            assert(fpath(files, i) == b[j].path@);
        }
    }
}

proof fn lemma_covers_after_set(a: Seq<FsNode>, b: Seq<FsNode>, files: Seq<FileDescriptor>, i: int)
    requires
        0 <= i < files.len(),
        keeps_paths(a, b),
        b.len() == a.len(),
        forall|j: int| 1 <= j < a.len() ==> is_listed_prefix(files, i + 1, (#[trigger] a[j]).path@),
        covered_before(a, files, i),
        forall|mm: int| 1 <= mm <= fpath(files, i).len() ==> has_node_at(a, #[trigger] fpath(files, i).take(mm)),
    ensures
        covers(b, files, i + 1),
{
    lemma_covered_kept(a, b, files, i);
    assert forall|j: int| 1 <= j < b.len() implies is_listed_prefix(files, i + 1, (#[trigger] b[j]).path@) by {
        assert(a[j].path@ == b[j].path@);
    }
    assert forall|k: int, mm: int|
        0 <= k < i + 1 && 1 <= mm <= fpath(files, k).len() implies has_node_at(
        b,
        #[trigger] fpath(files, k).take(mm),
    ) by {
        if k == i {
            lemma_has_node_kept(a, b, fpath(files, i).take(mm));
        }
    }
}

proof fn lemma_attributes_set(a: Seq<FsNode>, b: Seq<FsNode>, files: Seq<FileDescriptor>, i: int, cur: int)
    requires
        i <= usize::MAX,
        fpath(files, i).len() >= 1,
        walk_ok(a, files, i, cur, fpath(files, i).len() as int),
        attributes_set(a, b, files, i, cur),
    ensures
        nodes_wf(b, files, i + 1),
{
    reveal(walk_ok);
    reveal(nodes_wf);
    let p = fpath(files, i);
    assert(p.take(p.len() as int) =~= p);
    assert(cur != 0);
    assert(same_shape(a, b));
    lemma_same_shape(a, b);
    lemma_attrs_after_set(a, b, files, i, cur);
    lemma_covers_after_set(a, b, files, i);
}

/// Gives the node at the full path of descriptor `i` that descriptor's attributes.
fn set_attributes(nodes: &mut Vec<FsNode>, files: &Vec<FileDescriptor>, i: usize, cur: usize)
    requires
        fpath(files@, i as int).len() >= 1,
        walk_ok(old(nodes)@, files@, i as int, cur as int, fpath(files@, i as int).len() as int),
    ensures
        nodes_wf(final(nodes)@, files@, i + 1),
{
    proof {
        lemma_walk_children(nodes@, files@, i as int, cur as int, fpath(files@, i as int).len() as int);
    }
    let ghost old_nodes = nodes@;
    let d = &files[i];
    nodes[cur].desc_index = Some(i);
    nodes[cur].is_dir = d.is_dir;
    nodes[cur].size = if d.is_dir { 0 } else { d.size };
    nodes[cur].modified = d.modified;
    proof {
        lemma_attributes_set(old_nodes, nodes@, files@, i as int, cur as int);
    }
}

/// Adds the path of descriptor `i` to the nodes built from the descriptors before it.
fn insert_descriptor(nodes: &mut Vec<FsNode>, files: &Vec<FileDescriptor>, i: usize)
    requires
        i < files@.len(),
        nodes_wf(old(nodes)@, files@, i as int),
    ensures
        nodes_wf(final(nodes)@, files@, i + 1),
{
    let len = files[i].segments.len();
    assert(fpath(files@, i as int).len() == len);
    if len == 0 {
        proof {
            lemma_skip_empty_path(nodes@, files@, i as int);
        }
        return;
    }
    proof {
        lemma_walk_start(nodes@, files@, i as int);
    }
    let mut cur: usize = 0;
    let mut m: usize = 0;
    while m < len
        invariant
            len == fpath(files@, i as int).len(),
            m <= len,
            walk_ok(nodes@, files@, i as int, cur as int, m as int),
        decreases len - m,
    {
        cur = walk_step(nodes, files, i, cur, m);
        m = m + 1;
    }
    set_attributes(nodes, files, i, cur);
}

/// Attributes reported for a node.
#[derive(PartialEq, Eq, Structural, Debug, Clone, Copy)]
pub struct NodeAttr {
    pub size: u64,
    pub is_dir: bool,
    pub modified: u64,
}

/// The names of the children of `id`, in order.
pub open spec fn child_names(nodes: Seq<FsNode>, id: int) -> Seq<Seq<char>> {
    nodes[id].children@.map_values(|c: usize| nodes[c as int].name@)
}

pub open spec fn string_views(v: Seq<String>) -> Seq<Seq<char>> {
    v.map_values(|s: String| s@)
}

proof fn lemma_root_only(nodes: Seq<FsNode>, files: Seq<FileDescriptor>)
    requires
        nodes.len() == 1,
        nodes[0].path@ == Seq::<Seq<char>>::empty(),
        nodes[0].is_dir,
        nodes[0].desc_index is None,
        nodes[0].size == 0,
        nodes[0].modified == 0,
        nodes[0].children@.len() == 0,
    ensures
        nodes_wf(nodes, files, 0),
{
    reveal(nodes_wf);
}

proof fn lemma_children_valid(nodes: Seq<FsNode>, files: Seq<FileDescriptor>, n: int)
    requires
        nodes_wf(nodes, files, n),
    ensures
        nodes.len() >= 1,
        forall|id: int, t: int|
            0 <= id < nodes.len() && 0 <= t < nodes[id].children@.len() ==> 1 <= #[trigger] nodes[id].children@[t] < nodes.len(),
{
    reveal(nodes_wf);
}

impl FsTree {
    /// The tree of `files`, tagged with `generation`.
    pub fn build(files: Vec<FileDescriptor>, generation: u64) -> (t: FsTree)
        ensures
            t.wf(),
            t.files@ == files@,
            t.generation == generation,
    {
        let root = FsNode {
            name: String::new(),
            parent: 0,
            is_dir: true,
            size: 0,
            modified: 0,
            desc_index: None,
            children: Vec::new(),
            path: Ghost(Seq::empty()),
            first: Ghost(0),
        };
        let mut nodes: Vec<FsNode> = Vec::new();
        nodes.push(root);
        proof {
            lemma_root_only(nodes@, files@);
        }
        let mut i: usize = 0;
        while i < files.len()
            invariant
                i <= files@.len(),
                nodes_wf(nodes@, files@, i as int),
            decreases files@.len() - i,
        {
            insert_descriptor(&mut nodes, &files, i);
            i = i + 1;
        }
        FsTree { generation, files, nodes }
    }

    /// The tree of an empty list.
    pub fn empty(generation: u64) -> (t: FsTree)
        ensures
            t.wf(),
            t.files@.len() == 0,
            t.nodes@.len() == 1,
            t.generation == generation,
    {
        let root = FsNode {
            name: String::new(),
            parent: 0,
            is_dir: true,
            size: 0,
            modified: 0,
            desc_index: None,
            children: Vec::new(),
            path: Ghost(Seq::empty()),
            first: Ghost(0),
        };
        let mut nodes: Vec<FsNode> = Vec::new();
        nodes.push(root);
        let files: Vec<FileDescriptor> = Vec::new();
        proof {
            lemma_root_only(nodes@, files@);
        }
        FsTree { generation, files, nodes }
    }

    /// Names of the children of `id`, in order.
    fn names_of_children(&self, id: usize) -> (r: Vec<String>)
        requires
            self.wf(),
            id < self.nodes@.len(),
        ensures
            string_views(r@) == child_names(self.nodes@, id as int),
    {
        let children = &self.nodes[id].children;
        proof {
            lemma_children_valid(self.nodes@, self.files@, self.files@.len() as int);
        }
        assert forall|u: int| 0 <= u < children@.len() implies #[trigger] children@[u] < self.nodes@.len() by {
            assert(self.nodes@[id as int].children@[u] == children@[u]);
        }
        let mut r: Vec<String> = Vec::new();
        let mut t: usize = 0;
        while t < children.len()
            invariant
                id < self.nodes@.len(),
                children == self.nodes@[id as int].children,
                forall|u: int| 0 <= u < children@.len() ==> #[trigger] children@[u] < self.nodes@.len(),
                t <= children@.len(),
                string_views(r@) == child_names(self.nodes@, id as int).take(t as int),
            decreases children@.len() - t,
        {
            let c = children[t];
            assert(self.nodes@[id as int].children@[t as int] == c);
            let name = self.nodes[c].name.clone();
            assert(child_names(self.nodes@, id as int)[t as int] == name@);
            let ghost before = r@;
            r.push(name);
            assert(string_views(r@) =~= string_views(before).push(name@));
            assert(string_views(r@) =~= child_names(self.nodes@, id as int).take(t + 1));
            t = t + 1;
        }
        assert(child_names(self.nodes@, id as int).take(t as int) =~= child_names(self.nodes@, id as int));
        r
    }

    /// Names of the top-level entries, in order.
    pub fn list_root(&self) -> (r: Vec<String>)
        requires
            self.wf(),
        ensures
            string_views(r@) == child_names(self.nodes@, 0),
    {
        proof {
            lemma_children_valid(self.nodes@, self.files@, self.files@.len() as int);
        }
        self.names_of_children(0)
    }

    /// The child of directory `parent` named `name`.
    pub fn lookup(&self, parent: usize, name: &String) -> (r: Result<usize, CliprdrError>)
        requires
            self.wf(),
        ensures
            parent >= self.nodes@.len() ==> r == Err::<usize, CliprdrError>(CliprdrError::NotFound),
            parent < self.nodes@.len() && !self.nodes@[parent as int].is_dir ==> r == Err::<
                usize,
                CliprdrError,
            >(CliprdrError::NotDirectory),
            parent < self.nodes@.len() && self.nodes@[parent as int].is_dir ==> match r {
                Ok(c) => self.nodes@[parent as int].children@.contains(c) && c < self.nodes@.len()
                    && self.nodes@[c as int].name@ == name@,
                Err(e) => e == CliprdrError::NotFound && !child_names(
                    self.nodes@,
                    parent as int,
                ).contains(name@),
            },
    {
        if parent >= self.nodes.len() {
            return Err(CliprdrError::NotFound);
        }
        if !self.nodes[parent].is_dir {
            return Err(CliprdrError::NotDirectory);
        }
        proof {
            lemma_children_valid(self.nodes@, self.files@, self.files@.len() as int);
        }
        match find_child(&self.nodes, parent, name) {
            Some(c) => Ok(c),
            None => {
                assert(!child_names(self.nodes@, parent as int).contains(name@)) by {
                    if child_names(self.nodes@, parent as int).contains(name@) {
                        let t = choose|t: int|
                            0 <= t < child_names(self.nodes@, parent as int).len() && child_names(
                                self.nodes@,
                                parent as int,
                            )[t] == name@;
                        assert(self.nodes@[self.nodes@[parent as int].children@[t] as int].name@ == name@);
                    }
                }
                Err(CliprdrError::NotFound)
            },
        }
    }

    /// Size (0 for directories), kind and modification time of node `id`.
    pub fn getattr(&self, id: usize) -> (r: Result<NodeAttr, CliprdrError>)
        requires
            self.wf(),
        ensures
            id >= self.nodes@.len() ==> r == Err::<NodeAttr, CliprdrError>(CliprdrError::NotFound),
            id < self.nodes@.len() ==> r == Ok::<NodeAttr, CliprdrError>(
                NodeAttr {
                    size: self.nodes@[id as int].size,
                    is_dir: self.nodes@[id as int].is_dir,
                    modified: self.nodes@[id as int].modified,
                },
            ),
    {
        if id >= self.nodes.len() {
            return Err(CliprdrError::NotFound);
        }
        let n = &self.nodes[id];
        Ok(NodeAttr { size: n.size, is_dir: n.is_dir, modified: n.modified })
    }

    /// The children of directory `id`, in order, each with its name.
    pub fn readdir(&self, id: usize) -> (r: Result<Vec<(usize, String)>, CliprdrError>)
        requires
            self.wf(),
        ensures
            id >= self.nodes@.len() ==> r is Err && r->Err_0 == CliprdrError::NotFound,
            id < self.nodes@.len() && !self.nodes@[id as int].is_dir ==> r is Err && r->Err_0
                == CliprdrError::NotDirectory,
            id < self.nodes@.len() && self.nodes@[id as int].is_dir ==> (r matches Ok(v) && v@.len()
                == self.nodes@[id as int].children@.len() && forall|t: int|
                0 <= t < v@.len() ==> (#[trigger] v@[t]).0 == self.nodes@[id as int].children@[t]
                    && v@[t].1@ == child_names(self.nodes@, id as int)[t]),
    {
        if id >= self.nodes.len() {
            return Err(CliprdrError::NotFound);
        }
        if !self.nodes[id].is_dir {
            return Err(CliprdrError::NotDirectory);
        }
        let children = &self.nodes[id].children;
        proof {
            lemma_children_valid(self.nodes@, self.files@, self.files@.len() as int);
        }
        assert forall|u: int| 0 <= u < children@.len() implies #[trigger] children@[u] < self.nodes@.len() by {
            assert(self.nodes@[id as int].children@[u] == children@[u]);
        }
        let mut r: Vec<(usize, String)> = Vec::new();
        let mut t: usize = 0;
        while t < children.len()
            invariant
                id < self.nodes@.len(),
                children == self.nodes@[id as int].children,
                forall|u: int| 0 <= u < children@.len() ==> #[trigger] children@[u] < self.nodes@.len(),
                t <= children@.len(),
                r@.len() == t,
                forall|u: int|
                    0 <= u < t ==> (#[trigger] r@[u]).0 == children@[u] && r@[u].1@ == child_names(
                        self.nodes@,
                        id as int,
                    )[u],
            decreases children@.len() - t,
        {
            let c = children[t];
            assert(self.nodes@[id as int].children@[t as int] == c);
            let name = self.nodes[c].name.clone();
            r.push((c, name));
            t = t + 1;
        }
        Ok(r)
    }
}


/// Whether `s` is the first segment of the path of one of `files`.
pub open spec fn is_top_segment(files: Seq<FileDescriptor>, s: Seq<char>) -> bool {
    exists|k: int| 0 <= k < files.len() && fpath(files, k).len() >= 1 && (#[trigger] fpath(files, k))[0] == s
}

/// The names listed under a directory are pairwise distinct: each entry,
/// implied or explicit, appears once.
pub proof fn lemma_child_names_distinct(t: &FsTree, id: int)
    requires
        t.wf(),
        0 <= id < t.nodes@.len(),
    ensures
        child_names(t.nodes@, id).no_duplicates(),
{
    reveal(nodes_wf);
    let nodes = t.nodes@;
    let names = child_names(nodes, id);
    assert forall|u: int, v: int| 0 <= u < names.len() && 0 <= v < names.len() && u != v implies names[u] != names[v] by {
        let cu = nodes[id].children@[u] as int;
        let cv = nodes[id].children@[v] as int;
        assert(cu != cv);
        assert(nodes[cu].parent == id && nodes[cv].parent == id);
        assert(nodes[cu].path@ != nodes[cv].path@);
        if names[u] == names[v] {
            lemma_path_split(nodes[cu].path@);
            lemma_path_split(nodes[cv].path@);
        }
    }
}

/// The top-level names are exactly the first segments of the descriptor
/// paths, each listed once.
pub proof fn lemma_list_root_is_top_segments(t: &FsTree)
    requires
        t.wf(),
    ensures
        forall|s: Seq<char>| child_names(t.nodes@, 0).contains(s) <==> is_top_segment(t.files@, s),
        child_names(t.nodes@, 0).no_duplicates(),
{
    reveal(nodes_wf);
    lemma_child_names_distinct(t, 0);
    let nodes = t.nodes@;
    let files = t.files@;
    let names = child_names(nodes, 0);
    assert forall|s: Seq<char>| names.contains(s) <==> is_top_segment(files, s) by {
        if names.contains(s) {
            let u = choose|u: int| 0 <= u < names.len() && names[u] == s;
            let c = nodes[0].children@[u] as int;
            assert(nodes[c].parent == 0);
            assert(nodes[c].path@.drop_last().len() == 0);
            assert(is_listed_prefix(files, files.len() as int, nodes[c].path@));
            let (k, m) = choose|k: int, m: int|
                0 <= k < files.len() && 1 <= m <= fpath(files, k).len() && nodes[c].path@
                    == #[trigger] fpath(files, k).take(m);
            assert(fpath(files, k)[0] == s);
        }
        if is_top_segment(files, s) {
            let k = choose|k: int| 0 <= k < files.len() && fpath(files, k).len() >= 1 && (#[trigger] fpath(files, k))[0] == s;
            assert(has_node_at(nodes, fpath(files, k).take(1)));
            let j = choose|j: int| 0 <= j < nodes.len() && (#[trigger] nodes[j]).path@ == fpath(files, k).take(1);
            assert(j != 0);
            let pj = nodes[j].parent as int;
            assert(nodes[pj].path@ =~= nodes[0].path@);
            assert(pj == 0);
            assert(nodes[0].children@.contains(j as usize));
            let u = choose|u: int| 0 <= u < nodes[0].children@.len() && nodes[0].children@[u] == j as usize;
            assert(names[u] == s);
        }
    }
}

/// Every non-empty prefix of a descriptor path has a node, listed under the
/// node of the prefix one segment shorter.
pub proof fn lemma_prefix_has_node(t: &FsTree, k: int, m: int)
    requires
        t.wf(),
        0 <= k < t.files@.len(),
        1 <= m <= fpath(t.files@, k).len(),
    ensures
        exists|i: int|
            1 <= i < t.nodes@.len() && (#[trigger] t.nodes@[i]).path@ == fpath(t.files@, k).take(m)
                && t.nodes@[t.nodes@[i].parent as int].path@ == fpath(t.files@, k).take(m - 1)
                && t.nodes@[t.nodes@[i].parent as int].children@.contains(i as usize),
{
    reveal(nodes_wf);
    let nodes = t.nodes@;
    let p = fpath(t.files@, k);
    assert(has_node_at(nodes, p.take(m)));
    let i = choose|i: int| 0 <= i < nodes.len() && (#[trigger] nodes[i]).path@ == p.take(m);
    assert(p.take(m).len() == m);
    assert(i != 0);
    assert(nodes[nodes[i].parent as int].path@ =~= p.take(m - 1));
}

/// A file node reports the size, kind and time of the descriptor it came from.
pub proof fn lemma_file_node_from_descriptor(t: &FsTree, id: int)
    requires
        t.wf(),
        0 <= id < t.nodes@.len(),
        !t.nodes@[id].is_dir,
    ensures
        t.nodes@[id].desc_index matches Some(k) && k < t.files@.len() && fpath(t.files@, k as int)
            == t.nodes@[id].path@ && !t.files@[k as int].is_dir && t.nodes@[id].size
            == t.files@[k as int].size && t.nodes@[id].modified == t.files@[k as int].modified,
{
    reveal(nodes_wf);
    assert(node_attrs_ok(t.nodes@[id], t.files@, t.files@.len() as int));
}

/// The tree of an empty list has no top-level entries.
pub proof fn lemma_empty_list_empty_root(t: &FsTree)
    requires
        t.wf(),
        t.files@.len() == 0,
    ensures
        t.nodes@.len() == 1,
        child_names(t.nodes@, 0).len() == 0,
{
    reveal(nodes_wf);
    if t.nodes@.len() > 1 {
        assert(is_listed_prefix(t.files@, 0, t.nodes@[1].path@));
    }
    if t.nodes@[0].children@.len() > 0 {
        let c = t.nodes@[0].children@[0];
        assert(1 <= c < t.nodes@.len());
    }
}

/// Whether descriptor `k` is the first of `files` whose path starts with segment `s`.
pub open spec fn first_with_top(files: Seq<FileDescriptor>, s: Seq<char>, k: int) -> bool {
    &&& 0 <= k < files.len()
    &&& fpath(files, k).len() >= 1
    &&& fpath(files, k)[0] == s
    &&& forall|k2: int| 0 <= k2 < k ==> !(fpath(files, k2).len() >= 1 && (#[trigger] fpath(files, k2))[0] == s)
}

proof fn lemma_root_child_first(t: &FsTree, u: int) -> (k: int)
    requires
        nodes_wf(t.nodes@, t.files@, t.files@.len() as int),
        0 <= u < t.nodes@[0].children@.len(),
    ensures
        k == t.nodes@[t.nodes@[0].children@[u] as int].first@,
        first_with_top(t.files@, child_names(t.nodes@, 0)[u], k),
{
    reveal(nodes_wf);
    let nodes = t.nodes@;
    let c = nodes[0].children@[u] as int;
    let s = child_names(nodes, 0)[u];
    assert(nodes[c].parent == 0);
    assert(1 <= c);
    assert(nodes[c].path@.drop_last().len() == 0);
    assert(nodes[c].path@.len() == 1);
    let k = nodes[c].first@;
    let p = fpath(t.files@, k);
    assert(is_path_prefix(nodes[c].path@, p));
    assert(p.take(1)[0] == p[0]);
    assert(nodes[c].path@[0] == s);
    assert forall|k2: int| 0 <= k2 < k implies !(fpath(t.files@, k2).len() >= 1 && (#[trigger] fpath(t.files@, k2))[0] == s) by {
        let q = fpath(t.files@, k2);
        if q.len() >= 1 && q[0] == s {
            assert(q.take(1) =~= nodes[c].path@);
        }
    }
    k
}

/// The top-level names come in the order in which they first appear among
/// the descriptor paths.
pub proof fn lemma_list_root_in_first_appearance_order(t: &FsTree, u: int, v: int, ku: int, kv: int)
    requires
        t.wf(),
        0 <= u < v < child_names(t.nodes@, 0).len(),
        first_with_top(t.files@, child_names(t.nodes@, 0)[u], ku),
        first_with_top(t.files@, child_names(t.nodes@, 0)[v], kv),
    ensures
        ku < kv,
{
    reveal(nodes_wf);
    lemma_child_names_distinct(t, 0);
    let fu = lemma_root_child_first(t, u);
    let fv = lemma_root_child_first(t, v);
    let nodes = t.nodes@;
    let names = child_names(nodes, 0);
    let cu = nodes[0].children@[u] as int;
    let cv = nodes[0].children@[v] as int;
    assert(cu < cv);
    assert(1 <= cu);
    assert(nodes[cu].first@ <= nodes[cv].first@);
    assert(ku == fu) by {
        if ku < fu {
            assert(fpath(t.files@, ku)[0] == names[u]);
        } else if fu < ku {
            assert(fpath(t.files@, fu)[0] == names[u]);
        }
    }
    assert(kv == fv) by {
        if kv < fv {
            assert(fpath(t.files@, kv)[0] == names[v]);
        } else if fv < kv {
            assert(fpath(t.files@, fv)[0] == names[v]);
        }
    }
    assert(names[u] != names[v]);
}

} // verus!
