//! The virtual filesystem: directories, files and synthetic files in memory,
//! with directories of the host mounted among them.

use bytes::Bytes;
use vstd::prelude::*;

use crate::arena::{
    bytes_copied, bytes_to_vec, Arena, Child, Node, NodeId, NodeKind,
};
use crate::host_path::{join_path, path_starts_with};
use crate::order::{sort_stable, text_before, Ordered, Ranked};
use crate::text::{owned, same_text};
use crate::vfs_path::{Capability, CapabilityId, VfsError, VfsPath, VfsResult};

verus! {

/// What stands at a path.
pub enum EntryModel {
    Dir,
    File(Seq<u8>),
    Synthetic(u64),
}

/// What stands at every path of a filesystem that has an entry.
pub type Tree = Map<Seq<Seq<char>>, EntryModel>;

/// Where the way along a path ends.
pub enum Lookup {
    Found(EntryModel),
    NotFound,
    NotADir,
}

/// Follows a path from the root: it ends where a name is missing, or where
/// something that is no directory would have to be entered.
pub open spec fn lookup(tree: Tree, path: Seq<Seq<char>>) -> Lookup
    decreases path.len(),
{
    if path.len() == 0 {
        Lookup::Found(EntryModel::Dir)
    } else {
        match lookup(tree, path.drop_last()) {
            Lookup::Found(EntryModel::Dir) => if tree.dom().contains(path) {
                Lookup::Found(tree[path])
            } else {
                Lookup::NotFound
            },
            Lookup::Found(_) => Lookup::NotADir,
            other => other,
        }
    }
}

/// The names in a directory lead to these nodes.
pub open spec fn child_named(children: Seq<Child>, name: Seq<char>, i: int) -> Option<u64>
    decreases children.len() - i,
{
    if i < 0 || i >= children.len() {
        None
    } else if children[i].name@ == name {
        Some(children[i].id.0)
    } else {
        child_named(children, name, i + 1)
    }
}

spec fn kids(n: Node) -> Seq<Child> {
    match n.kind {
        NodeKind::Dir { children } => children@,
        _ => Seq::empty(),
    }
}

spec fn entry_of(n: Node) -> EntryModel {
    match n.kind {
        NodeKind::Dir { .. } => EntryModel::Dir,
        NodeKind::File { content } => EntryModel::File(content@),
        NodeKind::Synthetic(h) => EntryModel::Synthetic(h),
    }
}

enum Walk {
    Found(u64),
    NotFound,
    NotADir,
}

/// Follows a path through the nodes.
spec fn walk(c: Map<u64, Node>, root: u64, path: Seq<Seq<char>>) -> Walk
    decreases path.len(),
{
    if path.len() == 0 {
        Walk::Found(root)
    } else {
        match walk(c, root, path.drop_last()) {
            Walk::Found(id) => if c[id].kind is Dir {
                match child_named(kids(c[id]), path.last(), 0) {
                    Some(x) => Walk::Found(x),
                    None => Walk::NotFound,
                }
            } else {
                Walk::NotADir
            },
            other => other,
        }
    }
}

/// The nodes form a tree: every child is a live node other than the root,
/// stands in one directory only, and has a name of its own there.
spec fn is_tree(c: Map<u64, Node>, root: u64) -> bool {
    &&& c.dom().finite()
    &&& c.dom().contains(root)
    &&& c[root].kind is Dir
    &&& forall|a: u64, i: int|
        c.dom().contains(a) && 0 <= i < kids(c[a]).len() ==> {
            let x = (#[trigger] kids(c[a])[i]).id.0;
            c.dom().contains(x) && x != root
        }
    &&& forall|a: u64, i: int, j: int|
        c.dom().contains(a) && 0 <= i < j < kids(c[a]).len() ==> (#[trigger] kids(
            c[a],
        )[i]).name@ != (#[trigger] kids(c[a])[j]).name@
    &&& forall|a: u64, i: int, b: u64, j: int|
        #![trigger kids(c[a])[i], kids(c[b])[j]]
        c.dom().contains(a) && c.dom().contains(b) && 0 <= i < kids(c[a]).len() && 0 <= j < kids(
            c[b],
        ).len() && kids(c[a])[i].id.0 == kids(c[b])[j].id.0 ==> a == b && i == j
}

spec fn tree_of(c: Map<u64, Node>, root: u64) -> Tree {
    Map::new(
        |p: Seq<Seq<char>>| walk(c, root, p) is Found,
        |p: Seq<Seq<char>>| entry_of(c[walk(c, root, p)->Found_0]),
    )
}

proof fn lemma_child_named(children: Seq<Child>, name: Seq<char>, i: int)
    requires
        0 <= i,
    ensures
        match child_named(children, name, i) {
            Some(x) => exists|k: int|
                i <= k < children.len() && (#[trigger] children[k]).name@ == name
                    && children[k].id.0 == x,
            None => forall|k: int|
                i <= k < children.len() ==> (#[trigger] children[k]).name@ != name,
        },
    decreases children.len() - i,
{
    if i < children.len() && children[i].name@ != name {
        lemma_child_named(children, name, i + 1);
    }
}

proof fn lemma_child_named_push(children: Seq<Child>, added: Child, name: Seq<char>, i: int)
    requires
        0 <= i <= children.len(),
    ensures
        child_named(children.push(added), name, i) == (match child_named(children, name, i) {
            Some(x) => Some(x),
            None => if added.name@ == name {
                Some(added.id.0)
            } else {
                None
            },
        }),
    decreases children.len() - i,
{
    if i < children.len() {
        lemma_child_named_push(children, added, name, i + 1);
    } else {
        assert(child_named(children.push(added), name, i + 1) is None);
    }
}

proof fn lemma_walk_live(c: Map<u64, Node>, root: u64, path: Seq<Seq<char>>)
    requires
        is_tree(c, root),
    ensures
        walk(c, root, path) matches Walk::Found(id) ==> c.dom().contains(id) && (path.len() > 0
            ==> id != root),
    decreases path.len(),
{
    if path.len() > 0 {
        lemma_walk_live(c, root, path.drop_last());
        if let Walk::Found(id) = walk(c, root, path.drop_last()) {
            lemma_child_named(kids(c[id]), path.last(), 0);
        }
    }
}

/// Two paths never lead to the same node.
proof fn lemma_walk_injective(
    c: Map<u64, Node>,
    root: u64,
    p: Seq<Seq<char>>,
    q: Seq<Seq<char>>,
)
    requires
        is_tree(c, root),
        walk(c, root, p) is Found,
        walk(c, root, p) == walk(c, root, q),
    ensures
        p == q,
    decreases p.len(),
{
    lemma_walk_live(c, root, p);
    lemma_walk_live(c, root, q);
    if p.len() == 0 || q.len() == 0 {
        assert(p =~= q);
    } else {
        let a = walk(c, root, p.drop_last())->Found_0;
        let b = walk(c, root, q.drop_last())->Found_0;
        lemma_walk_live(c, root, p.drop_last());
        lemma_walk_live(c, root, q.drop_last());
        lemma_child_named(kids(c[a]), p.last(), 0);
        lemma_child_named(kids(c[b]), q.last(), 0);
        let i = choose|k: int|
            0 <= k < kids(c[a]).len() && (#[trigger] kids(c[a])[k]).name@ == p.last() && kids(
                c[a],
            )[k].id.0 == walk(c, root, p)->Found_0;
        let j = choose|k: int|
            0 <= k < kids(c[b]).len() && (#[trigger] kids(c[b])[k]).name@ == q.last() && kids(
                c[b],
            )[k].id.0 == walk(c, root, q)->Found_0;
        assert(a == b && i == j);
        lemma_walk_injective(c, root, p.drop_last(), q.drop_last());
        assert(p =~= p.drop_last().push(p.last()));
        assert(q =~= q.drop_last().push(q.last()));
    }
}

/// Following a path through the nodes and through the tree comes to the same.
proof fn lemma_walk_is_lookup(c: Map<u64, Node>, root: u64, path: Seq<Seq<char>>)
    requires
        is_tree(c, root),
    ensures
        match walk(c, root, path) {
            Walk::Found(id) => lookup(tree_of(c, root), path) == Lookup::Found(entry_of(c[id])),
            Walk::NotFound => lookup(tree_of(c, root), path) == Lookup::NotFound,
            Walk::NotADir => lookup(tree_of(c, root), path) == Lookup::NotADir,
        },
    decreases path.len(),
{
    let tree = tree_of(c, root);
    if path.len() > 0 {
        lemma_walk_is_lookup(c, root, path.drop_last());
        assert(tree.dom().contains(path) == (walk(c, root, path) is Found));
    }
}

proof fn lemma_prefix_found(c: Map<u64, Node>, root: u64, path: Seq<Seq<char>>, k: int)
    requires
        walk(c, root, path) is Found,
        0 <= k <= path.len(),
    ensures
        walk(c, root, path.take(k)) is Found,
    decreases path.len() - k,
{
    if k < path.len() {
        lemma_prefix_found(c, root, path, k + 1);
        assert(path.take(k + 1).drop_last() =~= path.take(k));
    } else {
        assert(path.take(k) =~= path);
    }
}

/// `c2` is `c` with the new node `id` hung into the directory `parent` under
/// `name`.
spec fn hung(
    c: Map<u64, Node>,
    c2: Map<u64, Node>,
    parent: u64,
    name: Seq<char>,
    id: u64,
    node: Node,
) -> bool {
    &&& !c.dom().contains(id)
    &&& c.dom().contains(parent)
    &&& c[parent].kind is Dir
    &&& child_named(kids(c[parent]), name, 0) is None
    &&& kids(node).len() == 0
    &&& c2.dom() == c.dom().insert(id)
    &&& c2[id] == node
    &&& c2[parent].kind is Dir
    &&& kids(c2[parent]).len() == kids(c[parent]).len() + 1
    &&& kids(c2[parent]) == kids(c[parent]).push(kids(c2[parent]).last())
    &&& kids(c2[parent]).last().name@ == name
    &&& kids(c2[parent]).last().id.0 == id
    &&& forall|x: u64| c.dom().contains(x) && x != parent ==> #[trigger] c2[x] == c[x]
}

proof fn lemma_hung_is_tree(
    c: Map<u64, Node>,
    c2: Map<u64, Node>,
    root: u64,
    parent: u64,
    name: Seq<char>,
    id: u64,
    node: Node,
)
    requires
        is_tree(c, root),
        hung(c, c2, parent, name, id, node),
    ensures
        is_tree(c2, root),
{
    let added = kids(c2[parent]).last();
    lemma_child_named(kids(c[parent]), name, 0);
    assert forall|a: u64, i: int| c2.dom().contains(a) && 0 <= i < kids(c2[a]).len() implies {
        let x = (#[trigger] kids(c2[a])[i]).id.0;
        c2.dom().contains(x) && x != root
    } by {
        if a != id {
            if a == parent {
                if i < kids(c[parent]).len() {
                    assert(kids(c2[a])[i] == kids(c[a])[i]);
                }
            } else {
                assert(c2[a] == c[a]);
                assert(kids(c2[a])[i] == kids(c[a])[i]);
            }
        }
    }
    assert forall|a: u64, i: int, j: int|
        c2.dom().contains(a) && 0 <= i < j < kids(c2[a]).len() implies (#[trigger] kids(
        c2[a],
    )[i]).name@ != (#[trigger] kids(c2[a])[j]).name@ by {
        if a != id {
            if a == parent {
                assert(kids(c2[a])[i] == kids(c[a])[i]);
                if j < kids(c[parent]).len() {
                    assert(kids(c2[a])[j] == kids(c[a])[j]);
                }
            } else {
                assert(c2[a] == c[a]);
                assert(kids(c[a])[i].name@ != kids(c[a])[j].name@);
            }
        }
    }
    assert forall|a: u64, i: int, b: u64, j: int|
        #![trigger kids(c2[a])[i], kids(c2[b])[j]]
        c2.dom().contains(a) && c2.dom().contains(b) && 0 <= i < kids(c2[a]).len() && 0 <= j < kids(
            c2[b],
        ).len() && kids(c2[a])[i].id.0 == kids(c2[b])[j].id.0 implies a == b && i == j by {
        assert(a != id && b != id);
        let old_a = a != parent || i < kids(c[parent]).len();
        let old_b = b != parent || j < kids(c[parent]).len();
        if old_a {
            assert(kids(c2[a])[i] == kids(c[a])[i]);
            assert(c.dom().contains(kids(c[a])[i].id.0));
        }
        if old_b {
            assert(kids(c2[b])[j] == kids(c[b])[j]);
            assert(c.dom().contains(kids(c[b])[j].id.0));
        }
        if old_a && old_b {
            assert(kids(c[a])[i].id.0 == kids(c[b])[j].id.0);
        }
    }
}

proof fn lemma_hung_walk(
    c: Map<u64, Node>,
    c2: Map<u64, Node>,
    root: u64,
    parent: u64,
    at: Seq<Seq<char>>,
    name: Seq<char>,
    id: u64,
    node: Node,
    q: Seq<Seq<char>>,
)
    requires
        is_tree(c, root),
        hung(c, c2, parent, name, id, node),
        walk(c, root, at) == Walk::Found(parent),
    ensures
        if q == at.push(name) {
            walk(c2, root, q) == Walk::Found(id) && walk(c, root, q) == Walk::NotFound
        } else if at.push(name).is_prefix_of(q) {
            !(walk(c2, root, q) is Found) && walk(c, root, q) == Walk::NotFound
        } else {
            walk(c2, root, q) == walk(c, root, q)
        },
    decreases q.len(),
{
    let target = at.push(name);
    if q.len() == 0 {
        assert(!target.is_prefix_of(q));
    } else {
        let head = q.drop_last();
        lemma_hung_walk(c, c2, root, parent, at, name, id, node, head);
        assert(q =~= head.push(q.last()));
        lemma_walk_live(c, root, head);
        assert(target.drop_last() =~= at);
        if head == target {
            assert(target =~= q.subrange(0, target.len() as int));
            assert(child_named(kids(c2[id]), q.last(), 0) is None);
        } else if target.is_prefix_of(head) {
            assert(target =~= q.subrange(0, target.len() as int)) by {
                assert(target =~= head.subrange(0, target.len() as int));
            }
        } else {
            if target.is_prefix_of(q) && q != target {
                assert(q.len() > target.len()) by {
                    if q.len() == target.len() {
                        assert(q.subrange(0, target.len() as int) =~= q);
                    }
                }
                assert(target =~= head.subrange(0, target.len() as int)) by {
                    assert(target =~= q.subrange(0, target.len() as int));
                }
            }
            if let Walk::Found(x) = walk(c, root, head) {
                if x == parent {
                    lemma_walk_injective(c, root, head, at);
                    lemma_child_named_push(
                        kids(c[parent]),
                        kids(c2[parent]).last(),
                        q.last(),
                        0,
                    );
                    if q.last() == name {
                        assert(q =~= target);
                    } else {
                        assert(q != target) by {
                            if q == target {
                                assert(q.last() == target.last());
                            }
                        }
                    }
                } else {
                    if q == target {
                        assert(head =~= at);
                    }
                    assert(c2[x] == c[x]);
                }
            } else {
                if q == target {
                    assert(head =~= at);
                }
            }
        }
    }
}

proof fn lemma_hung_tree(
    c: Map<u64, Node>,
    c2: Map<u64, Node>,
    root: u64,
    parent: u64,
    at: Seq<Seq<char>>,
    name: Seq<char>,
    id: u64,
    node: Node,
)
    requires
        is_tree(c, root),
        hung(c, c2, parent, name, id, node),
        walk(c, root, at) == Walk::Found(parent),
    ensures
        is_tree(c2, root),
        tree_of(c2, root) == tree_of(c, root).insert(at.push(name), entry_of(node)),
        walk(c2, root, at.push(name)) == Walk::Found(id),
        !tree_of(c, root).dom().contains(at.push(name)),
        forall|q: Seq<Seq<char>>|
            (#[trigger] walk(c, root, q)) is Found ==> walk(c2, root, q) == walk(c, root, q),
{
    lemma_hung_is_tree(c, c2, root, parent, name, id, node);
    let one = tree_of(c, root).insert(at.push(name), entry_of(node));
    let two = tree_of(c2, root);
    assert forall|q: Seq<Seq<char>>|
        #![trigger two.dom().contains(q)]
        #![trigger two[q]]
        two.dom().contains(q) == one.dom().contains(q) && (two.dom().contains(q) ==> two[q]
            == one[q]) by {
        lemma_hung_walk(c, c2, root, parent, at, name, id, node, q);
        lemma_walk_live(c, root, q);
        if q != at.push(name) {
            if let Walk::Found(x) = walk(c, root, q) {
                if x != parent {
                    assert(c2[x] == c[x]);
                }
            }
        }
    }
    assert(two.dom() =~= one.dom());
    assert(two =~= one);
    lemma_hung_walk(c, c2, root, parent, at, name, id, node, at.push(name));
    assert forall|q: Seq<Seq<char>>| (#[trigger] walk(c, root, q)) is Found implies walk(
        c2,
        root,
        q,
    ) == walk(c, root, q) by {
        lemma_hung_walk(c, c2, root, parent, at, name, id, node, q);
    }
}

/// `c2` is `c` with the node `id`, no directory, made another that is no
/// directory either.
spec fn swapped(c: Map<u64, Node>, c2: Map<u64, Node>, id: u64, node: Node) -> bool {
    &&& c.dom().contains(id)
    &&& !(c[id].kind is Dir)
    &&& !(node.kind is Dir)
    &&& c2 == c.insert(id, node)
}

proof fn lemma_swapped_walk(
    c: Map<u64, Node>,
    c2: Map<u64, Node>,
    root: u64,
    id: u64,
    node: Node,
    q: Seq<Seq<char>>,
)
    requires
        is_tree(c, root),
        swapped(c, c2, id, node),
    ensures
        walk(c2, root, q) == walk(c, root, q),
    decreases q.len(),
{
    if q.len() > 0 {
        lemma_swapped_walk(c, c2, root, id, node, q.drop_last());
    }
}

proof fn lemma_swapped_tree(
    c: Map<u64, Node>,
    c2: Map<u64, Node>,
    root: u64,
    id: u64,
    node: Node,
    at: Seq<Seq<char>>,
)
    requires
        is_tree(c, root),
        swapped(c, c2, id, node),
        walk(c, root, at) == Walk::Found(id),
    ensures
        is_tree(c2, root),
        tree_of(c2, root) == tree_of(c, root).insert(at, entry_of(node)),
        forall|q: Seq<Seq<char>>| #[trigger] walk(c2, root, q) == walk(c, root, q),
{
    assert(c2.dom() =~= c.dom());
    assert forall|a: u64| c2.dom().contains(a) implies #[trigger] kids(c2[a]) == kids(c[a]) by {
        if a == id {
            assert(kids(c2[a]) =~= kids(c[a]));
        }
    }
    assert(is_tree(c2, root)) by {
        assert forall|a: u64, i: int| c2.dom().contains(a) && 0 <= i < kids(c2[a]).len() implies {
            let x = (#[trigger] kids(c2[a])[i]).id.0;
            c2.dom().contains(x) && x != root
        } by {
            assert(kids(c2[a])[i] == kids(c[a])[i]);
        }
        assert forall|a: u64, i: int, j: int|
            c2.dom().contains(a) && 0 <= i < j < kids(c2[a]).len() implies (#[trigger] kids(
            c2[a],
        )[i]).name@ != (#[trigger] kids(c2[a])[j]).name@ by {
            assert(kids(c[a])[i].name@ != kids(c[a])[j].name@);
        }
        assert forall|a: u64, i: int, b: u64, j: int|
            #![trigger kids(c2[a])[i], kids(c2[b])[j]]
            c2.dom().contains(a) && c2.dom().contains(b) && 0 <= i < kids(c2[a]).len() && 0 <= j
                < kids(c2[b]).len() && kids(c2[a])[i].id.0 == kids(c2[b])[j].id.0 implies a == b
            && i == j by {
            assert(kids(c[a])[i].id.0 == kids(c[b])[j].id.0);
        }
    }
    assert forall|q: Seq<Seq<char>>| #[trigger] walk(c2, root, q) == walk(c, root, q) by {
        lemma_swapped_walk(c, c2, root, id, node, q);
    }
    let one = tree_of(c, root).insert(at, entry_of(node));
    let two = tree_of(c2, root);
    assert forall|q: Seq<Seq<char>>|
        #![trigger two.dom().contains(q)]
        #![trigger two[q]]
        two.dom().contains(q) == one.dom().contains(q) && (two.dom().contains(q) ==> two[q]
            == one[q]) by {
        assert(walk(c2, root, q) == walk(c, root, q));
        if q != at && walk(c, root, q) == Walk::Found(id) {
            lemma_walk_injective(c, root, q, at);
        }
    }
    assert(two.dom() =~= one.dom());
    assert(two =~= one);
}

#[derive(Clone, Copy, Debug, PartialEq, Eq, Structural)]
pub enum EntryKind {
    Dir,
    File,
    Synthetic,
}

/// One entry of a listing.
#[derive(Clone, Debug)]
pub struct DirEntry {
    pub name: String,
    pub kind: EntryKind,
}

/// The contents of a `DirEntry`.
pub struct EntryView {
    pub name: Seq<char>,
    pub kind: EntryKind,
}

impl View for DirEntry {
    type V = EntryView;

    open spec fn view(&self) -> EntryView {
        EntryView { name: self.name@, kind: self.kind }
    }
}

pub open spec fn entry_views(s: Seq<DirEntry>) -> Seq<EntryView> {
    s.map_values(|e: DirEntry| e@)
}

impl Ordered for EntryView {
    open spec fn before(self, other: Self) -> bool {
        crate::order::text_lt(self.name, other.name)
    }
}

impl Ordered for DirEntry {
    open spec fn before(self, other: Self) -> bool {
        self@.before(other@)
    }
}

impl Ranked for DirEntry {
    fn comes_before(&self, other: &Self) -> (r: bool) {
        text_before(self.name.as_str(), other.name.as_str())
    }
}

pub open spec fn kind_of(e: EntryModel) -> EntryKind {
    match e {
        EntryModel::Dir => EntryKind::Dir,
        EntryModel::File(_) => EntryKind::File,
        EntryModel::Synthetic(_) => EntryKind::Synthetic,
    }
}

/// What an entry is and how long it is.
#[derive(Clone, Copy, Debug, PartialEq, Eq, Structural)]
pub struct VfsStat {
    pub kind: EntryKind,
    pub len: u64,
}

/// Tells that a file was written. Handlers are run on these.
#[derive(Clone, Debug)]
pub struct WriteEvent {
    pub path: VfsPath,
    pub node: NodeId,
    pub bytes_len: usize,
    pub writer: CapabilityId,
}

/// What the code behind a synthetic file is told: the path it was reached by,
/// and who is calling.
#[derive(Clone, Debug)]
pub struct VfsCtx {
    pub path: VfsPath,
    pub writer: CapabilityId,
}

/// What a synthetic write came to: handled inside, or to be announced.
#[derive(Debug)]
pub enum WriteOutcome {
    Stored,
    Emit(WriteEvent),
}

/// A directory of the host, mounted at a path.
#[derive(Clone, Debug)]
pub struct HostMount {
    pub virtual_path: VfsPath,
    pub host_path: String,
}

/// The contents of a `HostMount`.
pub struct HostMountModel {
    pub at: Seq<Seq<char>>,
    pub host: Seq<char>,
}

impl View for HostMount {
    type V = HostMountModel;

    open spec fn view(&self) -> HostMountModel {
        HostMountModel { at: self.virtual_path@, host: self.host_path@ }
    }
}

impl Ordered for HostMountModel {
    open spec fn before(self, other: Self) -> bool {
        self.at.len() > other.at.len()
    }
}

impl Ordered for HostMount {
    open spec fn before(self, other: Self) -> bool {
        self@.before(other@)
    }
}

impl Ranked for HostMount {
    fn comes_before(&self, other: &Self) -> (r: bool) {
        self.virtual_path.depth() > other.virtual_path.depth()
    }
}

pub open spec fn mount_models(s: Seq<HostMount>) -> Seq<HostMountModel> {
    s.map_values(|m: HostMount| m@)
}

/// A filesystem in memory.
pub struct Vfs {
    arena: Arena,
    root: u64,
    host_mounts: Vec<HostMount>,
}

/// What a filesystem holds.
pub struct VfsModel {
    pub tree: Tree,
    pub mounts: Seq<HostMountModel>,
}

impl View for Vfs {
    type V = VfsModel;

    closed spec fn view(&self) -> VfsModel {
        VfsModel {
            tree: tree_of(crate::arena::arena_contents(self.arena), self.root),
            mounts: mount_models(self.host_mounts@),
        }
    }
}

/// Every missing directory along the first `n` segments of `path` is made.
pub open spec fn with_dirs(tree: Tree, path: Seq<Seq<char>>, n: int) -> Tree
    decreases n,
{
    if n <= 0 {
        tree
    } else {
        let before = with_dirs(tree, path, n - 1);
        if before.dom().contains(path.take(n)) {
            before
        } else {
            before.insert(path.take(n), EntryModel::Dir)
        }
    }
}

/// Something that is no directory stands where `path` would have to pass.
pub open spec fn way_blocked(tree: Tree, path: Seq<Seq<char>>) -> bool {
    exists|k: int|
        0 <= k < path.len() && tree.dom().contains(#[trigger] path.take(k)) && tree[path.take(k)]
            != EntryModel::Dir
}

/// Why nothing can be put at `path`, where nothing can.
pub open spec fn put_refusal(tree: Tree, path: Seq<Seq<char>>, e: VfsError) -> bool {
    if path.len() == 0 {
        e matches VfsError::InvalidPath(m) && m@ == "/"@
    } else {
        match lookup(tree, path.drop_last()) {
            Lookup::Found(EntryModel::Dir) => false,
            Lookup::NotFound => e is NotFound,
            _ => e is NotADir,
        }
    }
}

/// There is a directory to put an entry at `path` into.
pub open spec fn has_place(tree: Tree, path: Seq<Seq<char>>) -> bool {
    path.len() > 0 && lookup(tree, path.drop_last()) == Lookup::Found(EntryModel::Dir)
}

/// The node that `create_file` made, and the event to announce, if any.
#[derive(Debug)]
pub struct Created {
    pub node: NodeId,
    pub event: Option<WriteEvent>,
}

/// What reading a path comes to.
#[derive(Debug)]
pub enum ReadStep {
    File(Bytes),
    /// Ask the code behind this handle.
    Synthetic { handle: u64, ctx: VfsCtx },
    /// Nothing in memory: look on the host.
    Host,
}

/// What writing a path comes to.
#[derive(Debug)]
pub enum WriteStep {
    /// Stored; announce this.
    Stored(WriteEvent),
    /// Hand the bytes to the code behind this handle.
    Synthetic { handle: u64, ctx: VfsCtx, data: Bytes },
}

/// What stands in memory at a path, for `stat`.
#[derive(Debug)]
pub enum StatStep {
    Known(VfsStat),
    /// Nothing in memory: look on the host.
    Host,
}

/// What the host has at a path.
#[derive(Debug)]
pub enum HostListing {
    /// No mount leads there.
    Nowhere,
    /// Something that is no directory.
    NotADir,
    /// A directory with these entries, in the host's order.
    Dir(Vec<DirEntry>),
}

/// Where on the host a path may be: below the directory of a mount.
#[derive(Debug)]
pub struct HostCandidate {
    pub root: String,
    pub path: String,
}

/// The segments of `rest` added to a host path one after the other.
pub open spec fn host_joined(base: Seq<char>, rest: Seq<Seq<char>>) -> Seq<char>
    decreases rest.len(),
{
    if rest.len() == 0 {
        base
    } else {
        crate::host_path::joined(host_joined(base, rest.drop_last()), rest.last())
    }
}

/// The first mount from index `i` on that covers `path`.
pub open spec fn covering_mount(mounts: Seq<HostMountModel>, path: Seq<Seq<char>>, i: int) -> Option<
    HostMountModel,
>
    decreases mounts.len() - i,
{
    if i < 0 || i >= mounts.len() {
        None
    } else if mounts[i].at.is_prefix_of(path) {
        Some(mounts[i])
    } else {
        covering_mount(mounts, path, i + 1)
    }
}

/// The mounts that are not at `at`.
pub open spec fn mounts_elsewhere(mounts: Seq<HostMountModel>, at: Seq<Seq<char>>) -> Seq<
    HostMountModel,
>
    decreases mounts.len(),
{
    if mounts.len() == 0 {
        Seq::empty()
    } else if mounts.last().at == at {
        mounts_elsewhere(mounts.drop_last(), at)
    } else {
        mounts_elsewhere(mounts.drop_last(), at).push(mounts.last())
    }
}

fn find_child(children: &Vec<Child>, name: &str) -> (r: Option<u64>)
    ensures
        r == child_named(children@, name@, 0),
{
    let mut i: usize = 0;
    while i < children.len()
        invariant
            i <= children.len(),
            child_named(children@, name@, 0) == child_named(children@, name@, i as int),
        decreases children.len() - i,
    {
        if same_text(children[i].name.as_str(), name) {
            return Some(children[i].id.0);
        }
        i = i + 1;
    }
    None
}

impl Vfs {
    /// The nodes form a tree.
    pub closed spec fn wf(&self) -> bool {
        is_tree(crate::arena::arena_contents(self.arena), self.root)
    }

    /// How many nodes the filesystem has.
    pub closed spec fn node_count(&self) -> nat {
        crate::arena::arena_contents(self.arena).dom().len()
    }

    /// The node at a path.
    pub closed spec fn node_at(&self, path: Seq<Seq<char>>) -> Option<u64> {
        match walk(crate::arena::arena_contents(self.arena), self.root, path) {
            Walk::Found(id) => Some(id),
            _ => None,
        }
    }

    /// A filesystem with nothing but the root.
    pub fn new() -> (r: Vfs)
        ensures
            r.wf(),
            r@.tree == Map::<Seq<Seq<char>>, EntryModel>::empty().insert(
                Seq::empty(),
                EntryModel::Dir,
            ),
            r@.mounts.len() == 0,
            r.node_count() == 1,
    {
        Vfs::with_capacity(64)
    }

    /// A filesystem with nothing but the root, and room for `cap` nodes.
    pub fn with_capacity(cap: usize) -> (r: Vfs)
        requires
            (cap + 1) * 4096 <= isize::MAX,
        ensures
            r.wf(),
            r@.tree == Map::<Seq<Seq<char>>, EntryModel>::empty().insert(
                Seq::empty(),
                EntryModel::Dir,
            ),
            r@.mounts.len() == 0,
            r.node_count() == 1,
    {
        let mut arena = Arena::with_capacity(cap);
        let root: u64 = arena.insert(Node::dir_root());
        let r = Vfs { arena, root, host_mounts: Vec::new() };
        proof {
            let c = crate::arena::arena_contents(r.arena);
            assert(c.dom() =~= Set::<u64>::empty().insert(root));
            assert(kids(c[root]).len() == 0);
            let want = Map::<Seq<Seq<char>>, EntryModel>::empty().insert(
                Seq::empty(),
                EntryModel::Dir,
            );
            assert forall|q: Seq<Seq<char>>| (#[trigger] walk(c, root, q)) is Found implies q
                == Seq::<Seq<char>>::empty() by {
                lemma_walk_live(c, root, q);
                if q.len() > 0 {
                    lemma_walk_live(c, root, q.drop_last());
                    lemma_child_named(kids(c[root]), q.last(), 0);
                } else {
                    assert(q =~= Seq::<Seq<char>>::empty());
                }
            }
            assert(r@.tree.dom() =~= want.dom());
            assert(r@.tree =~= want);
        }
        r
    }

    /// How many more nodes fit.
    pub fn room(&self) -> (r: u64)
        requires
            self.wf(),
        ensures
            r == (if self.node_count() < crate::arena::arena_limit() {
                crate::arena::arena_limit() - self.node_count()
            } else {
                0int
            }),
    {
        let n: u64 = self.arena.len() as u64;
        if n < 0xffff_fffe {
            0xffff_fffe - n
        } else {
            0
        }
    }

    /// The node of the root.
    pub fn root_id(&self) -> (r: NodeId)
        ensures
            self.node_at(Seq::empty()) == Some(r.0),
    {
        NodeId(self.root)
    }

    fn resolve(&self, path: &VfsPath, n: usize) -> (r: VfsResult<u64>)
        requires
            self.wf(),
            n <= path@.len(),
        ensures
            match walk(crate::arena::arena_contents(self.arena), self.root, path@.take(n as int)) {
                Walk::Found(id) => r == Ok::<u64, VfsError>(id),
                Walk::NotFound => r == Err::<u64, VfsError>(VfsError::NotFound),
                Walk::NotADir => r == Err::<u64, VfsError>(VfsError::NotADir),
            },
    {
        let ghost c = crate::arena::arena_contents(self.arena);
        let mut cur: u64 = self.root;
        let mut i: usize = 0;
        while i < n
            invariant
                i <= n <= path@.len(),
                self.wf(),
                c == crate::arena::arena_contents(self.arena),
                walk(c, self.root, path@.take(i as int)) == Walk::Found(cur),
            decreases n - i,
        {
            proof {
                lemma_walk_live(c, self.root, path@.take(i as int));
                assert(path@.take(i + 1).drop_last() =~= path@.take(i as int));
                assert(path@.take(i + 1).last() == path@[i as int]);
            }
            match &self.arena.get(cur).kind {
                NodeKind::Dir { children } => {
                    match find_child(children, path.segment(i)) {
                        Some(id) => {
                            cur = id;
                        },
                        None => {
                            proof {
                                assert(path@.take(n as int).take(i + 1) =~= path@.take(i + 1));
                                lemma_walk_stuck(c, self.root, path@.take(n as int), i + 1);
                            }
                            return Err(VfsError::NotFound);
                        },
                    }
                },
                _ => {
                    proof {
                        assert(path@.take(n as int).take(i + 1) =~= path@.take(i + 1));
                        lemma_walk_stuck(c, self.root, path@.take(n as int), i + 1);
                    }
                    return Err(VfsError::NotADir);
                },
            }
            i = i + 1;
        }
        Ok(cur)
    }

    /// Hangs a new node into a directory.
    fn attach(
        &mut self,
        parent: u64,
        name: String,
        node: Node,
        Ghost(at): Ghost<Seq<Seq<char>>>,
    ) -> (r: u64)
        requires
            old(self).wf(),
            old(self).node_count() < crate::arena::arena_limit(),
            old(self).node_at(at) == Some(parent),
            crate::arena::arena_contents(old(self).arena)[parent].kind is Dir,
            child_named(
                kids(crate::arena::arena_contents(old(self).arena)[parent]),
                name@,
                0,
            ) is None,
            kids(node).len() == 0,
        ensures
            final(self).wf(),
            final(self).node_count() == old(self).node_count() + 1,
            final(self).root == old(self).root,
            final(self)@.mounts == old(self)@.mounts,
            final(self)@.tree == old(self)@.tree.insert(at.push(name@), entry_of(node)),
            !old(self)@.tree.dom().contains(at.push(name@)),
            final(self).node_at(at.push(name@)) == Some(r),
            crate::arena::arena_contents(final(self).arena)[r] == node,
            forall|q: Seq<Seq<char>>|
                (#[trigger] old(self).node_at(q)) is Some ==> final(self).node_at(q)
                    == old(self).node_at(q),
    {
        let ghost c = crate::arena::arena_contents(self.arena);
        proof {
            lemma_walk_live(c, self.root, at);
        }
        let ghost given = node;
        let ghost label = name@;
        let id: u64 = self.arena.insert(node);
        let dir = self.arena.get_mut(parent);
        match &mut dir.kind {
            NodeKind::Dir { children } => {
                children.push(Child { name, id: NodeId(id) });
            },
            _ => {},
        }
        proof {
            let c2 = crate::arena::arena_contents(self.arena);
            assert(c2.dom() =~= c.dom().insert(id));
            assert(kids(c2[parent]) =~= kids(c[parent]).push(kids(c2[parent]).last()));
            assert(hung(c, c2, parent, label, id, given));
            lemma_hung_tree(c, c2, self.root, parent, at, label, id, given);
            assert forall|q: Seq<Seq<char>>| (#[trigger] old(self).node_at(q)) is Some implies self.node_at(
                q,
            ) == old(self).node_at(q) by {
                assert(walk(c, self.root, q) is Found);
            }
        }
        id
    }

    /// Makes the directory at `path` and every missing one above it.
    pub fn mkdir_p(&mut self, path: &VfsPath) -> (r: VfsResult<NodeId>)
        requires
            old(self).wf(),
            old(self).node_count() + path@.len() <= crate::arena::arena_limit(),
        ensures
            final(self).wf(),
            final(self)@.mounts == old(self)@.mounts,
            final(self).node_count() <= old(self).node_count() + path@.len(),
            match r {
                Ok(id) => !way_blocked(old(self)@.tree, path@) && final(self)@.tree == with_dirs(
                    old(self)@.tree,
                    path@,
                    path@.len() as int,
                ) && final(self).node_at(path@) == Some(id.0),
                Err(e) => way_blocked(old(self)@.tree, path@) && e is NotADir && final(self)@.tree
                    == old(self)@.tree && final(self).node_count() == old(self).node_count(),
            },
            forall|q: Seq<Seq<char>>|
                (#[trigger] old(self).node_at(q)) is Some ==> final(self).node_at(q)
                    == old(self).node_at(q),
    {
        let ghost tree = self@.tree;
        let n: usize = path.depth();
        let mut cur: u64 = self.root;
        let mut i: usize = 0;
        while i < n
            invariant
                i <= n,
                n == path@.len(),
                tree == old(self)@.tree,
                old(self).wf(),
                self.wf(),
                self.root == old(self).root,
                self@.mounts == old(self)@.mounts,
                self.node_count() <= old(self).node_count() + i,
                old(self).node_count() + path@.len() <= crate::arena::arena_limit(),
                self@.tree == with_dirs(tree, path@, i as int),
                self.node_at(path@.take(i as int)) == Some(cur),
                self@.tree == tree ==> self.node_count() == old(self).node_count(),
                self@.tree == tree || (crate::arena::arena_contents(self.arena)[cur].kind is Dir
                    && kids(crate::arena::arena_contents(self.arena)[cur]).len() == 0),
                forall|q: Seq<Seq<char>>| #[trigger]
                    tree.dom().contains(q) ==> self@.tree.dom().contains(q) && self@.tree[q]
                        == tree[q],
                forall|q: Seq<Seq<char>>|
                    (#[trigger] old(self).node_at(q)) is Some ==> self.node_at(q) == old(
                        self
                    ).node_at(q),
                forall|k: int|
                    0 <= k < i && tree.dom().contains(#[trigger] path@.take(k))
                        ==> tree[path@.take(k)] == EntryModel::Dir,
            decreases n - i,
        {
            let ghost c = crate::arena::arena_contents(self.arena);
            let ghost here = path@.take(i as int);
            proof {
                lemma_walk_live(c, self.root, here);
                assert(path@.take(i + 1).drop_last() =~= here);
                assert(path@.take(i + 1).last() == path@[i as int]);
                assert(path@.take(i + 1) =~= here.push(path@[i as int]));
                assert(self@.tree.dom().contains(here));
                assert(self@.tree[here] == entry_of(c[cur]));
            }
            let existing: Option<u64> = match &self.arena.get(cur).kind {
                NodeKind::Dir { children } => {
                    find_child(children, path.segment(i))
                },
                _ => {
                    proof {
                        assert(tree.dom().contains(here));
                        assert(tree[here] != EntryModel::Dir);
                    }
                    return Err(VfsError::NotADir);
                },
            };
            match existing {
                Some(id) => {
                    proof {
                        lemma_child_named(kids(c[cur]), path@[i as int], 0);
                        assert(walk(c, self.root, path@.take(i + 1)) == Walk::Found(id));
                        assert(self@.tree.dom().contains(path@.take(i + 1)));
                    }
                    cur = id;
                },
                None => {
                    let name = owned(path.segment(i));
                    let label = owned(path.segment(i));
                    let node = Node::dir(name, Some(NodeId(cur)));
                    let ghost mid = self@.tree;
                    cur = self.attach(cur, label, node, Ghost(here));
                    proof {
                        assert(entry_of(node) == EntryModel::Dir);
                        assert(kids(node).len() == 0);
                        assert(self@.tree == mid.insert(path@.take(i + 1), EntryModel::Dir));
                        assert(!mid.dom().contains(path@.take(i + 1)));
                        assert(self@.tree.dom().contains(path@.take(i + 1)));
                        assert forall|q: Seq<Seq<char>>| #[trigger] tree.dom().contains(
                            q,
                        ) implies self@.tree.dom().contains(q) && self@.tree[q] == tree[q] by {
                            assert(mid.dom().contains(q));
                        }
                    }
                },
            }
            i = i + 1;
        }
        proof {
            assert(path@.take(n as int) =~= path@);
            assert(!way_blocked(tree, path@));
        }
        Ok(NodeId(cur))
    }

    /// The directory that an entry at `path` belongs into.
    fn place_for(&self, path: &VfsPath) -> (r: VfsResult<u64>)
        requires
            self.wf(),
        ensures
            match r {
                Ok(id) => has_place(self@.tree, path@) && self.node_at(path@.drop_last()) == Some(
                    id,
                ) && crate::arena::arena_contents(self.arena)[id].kind is Dir,
                Err(e) => !has_place(self@.tree, path@) && put_refusal(self@.tree, path@, e),
            },
    {
        if path.is_root() {
            return Err(VfsError::InvalidPath(owned("/")));
        }
        let ghost c = crate::arena::arena_contents(self.arena);
        proof {
            lemma_walk_is_lookup(c, self.root, path@.drop_last());
            lemma_walk_live(c, self.root, path@.drop_last());
            assert(path@.take(path@.len() - 1) =~= path@.drop_last());
        }
        let id: u64 = self.resolve(path, path.depth() - 1)?;
        match &self.arena.get(id).kind {
            NodeKind::Dir { .. } => Ok(id),
            _ => Err(VfsError::NotADir),
        }
    }

    /// The node that a directory has under the last segment of `path`.
    fn child_at(&self, dir: u64, path: &VfsPath) -> (r: Option<u64>)
        requires
            self.wf(),
            path@.len() > 0,
            self.node_at(path@.drop_last()) == Some(dir),
            crate::arena::arena_contents(self.arena)[dir].kind is Dir,
        ensures
            r == child_named(
                kids(crate::arena::arena_contents(self.arena)[dir]),
                path@.last(),
                0,
            ),
            r == self.node_at(path@),
            r is Some == self@.tree.dom().contains(path@),
    {
        proof {
            lemma_walk_live(
                crate::arena::arena_contents(self.arena),
                self.root,
                path@.drop_last(),
            );
        }
        let n: usize = path.depth();
        match &self.arena.get(dir).kind {
            NodeKind::Dir { children } => find_child(children, path.segment(n - 1)),
            _ => None,
        }
    }

    /// Makes a new file at `path`. Where it has contents, it is announced like
    /// a write; an empty file is made silently.
    pub fn create_file(&mut self, path: &VfsPath, content: Bytes) -> (r: VfsResult<Created>)
        requires
            old(self).wf(),
            old(self).node_count() < crate::arena::arena_limit(),
        ensures
            final(self).wf(),
            final(self)@.mounts == old(self)@.mounts,
            match r {
                Ok(made) => {
                    let bytes = crate::arena::bytes_contents(content);
                    &&& has_place(old(self)@.tree, path@)
                    &&& !old(self)@.tree.dom().contains(path@)
                    &&& final(self)@.tree == old(self)@.tree.insert(path@, EntryModel::File(bytes))
                    &&& final(self).node_at(path@) == Some(made.node.0)
                    &&& final(self).node_count() == old(self).node_count() + 1
                    &&& match made.event {
                        None => bytes.len() == 0,
                        Some(ev) => bytes.len() > 0 && ev.path@ == path@ && ev.node == made.node
                            && ev.bytes_len == bytes.len() && ev.writer == CapabilityId(0),
                    }
                },
                Err(e) => final(self)@.tree == old(self)@.tree && final(self).node_count() == old(
                    self
                ).node_count() && if has_place(old(self)@.tree, path@) {
                    old(self)@.tree.dom().contains(path@) && e is AlreadyExists
                } else {
                    put_refusal(old(self)@.tree, path@, e)
                },
            },
            forall|q: Seq<Seq<char>>|
                (#[trigger] old(self).node_at(q)) is Some ==> final(self).node_at(q)
                    == old(self).node_at(q),
    {
        let parent: u64 = self.place_for(path)?;
        if self.child_at(parent, path).is_some() {
            return Err(VfsError::AlreadyExists);
        }
        let n: usize = path.depth();
        let name = owned(path.segment(n - 1));
        let label = owned(path.segment(n - 1));
        let bytes = bytes_to_vec(&content);
        let len: usize = bytes.len();
        let node = Node::file(name, Some(NodeId(parent)), bytes);
        let id: u64 = self.attach(parent, label, node, Ghost(path@.drop_last()));
        proof {
            assert(path@.drop_last().push(path@.last()) =~= path@);
        }
        let event = if len > 0 {
            Some(
                WriteEvent {
                    path: path.copy(),
                    node: NodeId(id),
                    bytes_len: len,
                    writer: CapabilityId(0),
                },
            )
        } else {
            None
        };
        Ok(Created { node: NodeId(id), event })
    }

    /// Makes a new synthetic file at `path`, with the code behind `handle`.
    pub fn create_synthetic(&mut self, path: &VfsPath, handle: u64) -> (r: VfsResult<NodeId>)
        requires
            old(self).wf(),
            old(self).node_count() < crate::arena::arena_limit(),
        ensures
            final(self).wf(),
            final(self)@.mounts == old(self)@.mounts,
            match r {
                Ok(id) => has_place(old(self)@.tree, path@) && !old(self)@.tree.dom().contains(
                    path@,
                ) && final(self)@.tree == old(self)@.tree.insert(
                    path@,
                    EntryModel::Synthetic(handle),
                ) && final(self).node_at(path@) == Some(id.0) && final(self).node_count() == old(
                    self
                ).node_count() + 1,
                Err(e) => final(self)@.tree == old(self)@.tree && final(self).node_count() == old(
                    self
                ).node_count() && if has_place(old(self)@.tree, path@) {
                    old(self)@.tree.dom().contains(path@) && e is AlreadyExists
                } else {
                    put_refusal(old(self)@.tree, path@, e)
                },
            },
            forall|q: Seq<Seq<char>>|
                (#[trigger] old(self).node_at(q)) is Some ==> final(self).node_at(q)
                    == old(self).node_at(q),
    {
        let parent: u64 = self.place_for(path)?;
        if self.child_at(parent, path).is_some() {
            return Err(VfsError::AlreadyExists);
        }
        let n: usize = path.depth();
        let name = owned(path.segment(n - 1));
        let label = owned(path.segment(n - 1));
        let node = Node::synthetic(name, Some(NodeId(parent)), handle);
        let id: u64 = self.attach(parent, label, node, Ghost(path@.drop_last()));
        proof {
            assert(path@.drop_last().push(path@.last()) =~= path@);
        }
        Ok(NodeId(id))
    }

    /// Makes a node that is no directory into another that is none.
    fn swap(&mut self, id: u64, kind: NodeKind, Ghost(at): Ghost<Seq<Seq<char>>>)
        requires
            old(self).wf(),
            old(self).node_at(at) == Some(id),
            !(crate::arena::arena_contents(old(self).arena)[id].kind is Dir),
            !(kind is Dir),
        ensures
            final(self).wf(),
            final(self).root == old(self).root,
            final(self)@.mounts == old(self)@.mounts,
            final(self).node_count() == old(self).node_count(),
            final(self)@.tree == old(self)@.tree.insert(
                at,
                match kind {
                    NodeKind::File { content } => EntryModel::File(content@),
                    NodeKind::Synthetic(h) => EntryModel::Synthetic(h),
                    _ => EntryModel::Dir,
                },
            ),
            forall|q: Seq<Seq<char>>| #[trigger] final(self).node_at(q) == old(self).node_at(q),
    {
        let ghost c = crate::arena::arena_contents(self.arena);
        proof {
            lemma_walk_live(c, self.root, at);
        }
        let node = self.arena.get_mut(id);
        node.kind = kind;
        node.mtime = std::time::SystemTime::now();
        proof {
            let c2 = crate::arena::arena_contents(self.arena);
            assert(c2.dom() =~= c.dom());
            lemma_swapped_tree(c, c2, self.root, id, c2[id], at);
            assert forall|q: Seq<Seq<char>>| #[trigger] self.node_at(q) == old(self).node_at(
                q,
            ) by {
                assert(walk(c2, self.root, q) == walk(c, self.root, q));
            }
        }
    }

    /// Puts a synthetic file at `path`: a new one, or in place of the file
    /// that stands there.
    pub fn upsert_synthetic(&mut self, path: &VfsPath, handle: u64) -> (r: VfsResult<NodeId>)
        requires
            old(self).wf(),
            old(self).node_count() < crate::arena::arena_limit(),
        ensures
            final(self).wf(),
            final(self)@.mounts == old(self)@.mounts,
            match r {
                Ok(id) => has_place(old(self)@.tree, path@) && (old(self)@.tree.dom().contains(
                    path@,
                ) ==> old(self)@.tree[path@] != EntryModel::Dir && old(self).node_at(path@)
                    == Some(id.0)) && final(self)@.tree == old(self)@.tree.insert(
                    path@,
                    EntryModel::Synthetic(handle),
                ) && final(self).node_at(path@) == Some(id.0) && final(self).node_count() == old(
                    self
                ).node_count() + (if old(self)@.tree.dom().contains(path@) {
                    0int
                } else {
                    1
                }),
                Err(e) => final(self)@.tree == old(self)@.tree && final(self).node_count() == old(
                    self
                ).node_count() && if has_place(
                    old(self)@.tree,
                    path@,
                ) {
                    old(self)@.tree.dom().contains(path@) && old(self)@.tree[path@]
                        == EntryModel::Dir && e is IsDir
                } else {
                    put_refusal(old(self)@.tree, path@, e)
                },
            },
            forall|q: Seq<Seq<char>>|
                (#[trigger] old(self).node_at(q)) is Some ==> final(self).node_at(q)
                    == old(self).node_at(q),
    {
        let parent: u64 = self.place_for(path)?;
        match self.child_at(parent, path) {
            Some(id) => {
                proof {
                    lemma_walk_live(
                        crate::arena::arena_contents(self.arena),
                        self.root,
                        path@,
                    );
                }
                if let NodeKind::Dir { .. } = &self.arena.get(id).kind {
                    return Err(VfsError::IsDir);
                }
                self.swap(id, NodeKind::Synthetic(handle), Ghost(path@));
                Ok(NodeId(id))
            },
            None => {
                let n: usize = path.depth();
                let name = owned(path.segment(n - 1));
                let label = owned(path.segment(n - 1));
                let node = Node::synthetic(name, Some(NodeId(parent)), handle);
                let id: u64 = self.attach(parent, label, node, Ghost(path@.drop_last()));
                proof {
                    assert(path@.drop_last().push(path@.last()) =~= path@);
                }
                Ok(NodeId(id))
            },
        }
    }

    /// Reads what stands at `path`.
    pub fn read(&self, cap: &Capability, path: &VfsPath) -> (r: VfsResult<ReadStep>)
        requires
            self.wf(),
        ensures
            match lookup(self@.tree, path@) {
                Lookup::Found(EntryModel::File(bytes)) => r matches Ok(ReadStep::File(b))
                    && crate::arena::bytes_contents(b) == bytes,
                Lookup::Found(EntryModel::Synthetic(h)) => r matches Ok(
                    ReadStep::Synthetic { handle, ctx },
                ) && handle == h && ctx.path@ == path@ && ctx.writer.0 == cap@,
                Lookup::Found(EntryModel::Dir) => r matches Err(VfsError::IsDir),
                Lookup::NotFound => r matches Ok(ReadStep::Host),
                Lookup::NotADir => r matches Err(VfsError::NotADir),
            },
    {
        let ghost c = crate::arena::arena_contents(self.arena);
        proof {
            lemma_walk_is_lookup(c, self.root, path@);
            lemma_walk_live(c, self.root, path@);
            assert(path@.take(path@.len() as int) =~= path@);
        }
        let id: u64 = match self.resolve(path, path.depth()) {
            Ok(id) => id,
            Err(VfsError::NotFound) => {
                return Ok(ReadStep::Host);
            },
            Err(e) => {
                return Err(e);
            },
        };
        match &self.arena.get(id).kind {
            NodeKind::File { content } => Ok(ReadStep::File(bytes_copied(content.as_slice()))),
            NodeKind::Synthetic(handle) => Ok(
                ReadStep::Synthetic {
                    handle: *handle,
                    ctx: VfsCtx { path: path.copy(), writer: cap.id() },
                },
            ),
            NodeKind::Dir { .. } => Err(VfsError::IsDir),
        }
    }

    /// Writes to `path`. A file takes the bytes, and the write is to be
    /// announced; a synthetic file is written by its own code.
    pub fn write(&mut self, cap: &Capability, path: &VfsPath, data: Bytes) -> (r: VfsResult<
        WriteStep,
    >)
        requires
            old(self).wf(),
        ensures
            final(self).wf(),
            final(self)@.mounts == old(self)@.mounts,
            final(self).node_count() == old(self).node_count(),
            forall|q: Seq<Seq<char>>| #[trigger] final(self).node_at(q) == old(self).node_at(q),
            match lookup(old(self)@.tree, path@) {
                Lookup::Found(EntryModel::File(_)) => {
                    let bytes = crate::arena::bytes_contents(data);
                    &&& final(self)@.tree == old(self)@.tree.insert(path@, EntryModel::File(bytes))
                    &&& r matches Ok(WriteStep::Stored(ev))
                    &&& ev.path@ == path@
                    &&& old(self).node_at(path@) == Some(ev.node.0)
                    &&& ev.bytes_len == bytes.len()
                    &&& ev.writer.0 == cap@
                },
                Lookup::Found(EntryModel::Synthetic(h)) => final(self)@.tree == old(self)@.tree && (
                r matches Ok(WriteStep::Synthetic { handle, ctx, data: d }) && handle == h
                    && ctx.path@ == path@ && ctx.writer.0 == cap@ && d == data),
                Lookup::Found(EntryModel::Dir) => final(self)@.tree == old(self)@.tree && (
                r matches Err(VfsError::IsDir)),
                Lookup::NotFound => final(self)@.tree == old(self)@.tree && (
                r matches Err(VfsError::NotFound)),
                Lookup::NotADir => final(self)@.tree == old(self)@.tree && (
                r matches Err(VfsError::NotADir)),
            },
    {
        let ghost c = crate::arena::arena_contents(self.arena);
        proof {
            lemma_walk_is_lookup(c, self.root, path@);
            lemma_walk_live(c, self.root, path@);
            assert(path@.take(path@.len() as int) =~= path@);
        }
        let id: u64 = self.resolve(path, path.depth())?;
        match &self.arena.get(id).kind {
            NodeKind::File { .. } => {},
            NodeKind::Synthetic(handle) => {
                return Ok(
                    WriteStep::Synthetic {
                        handle: *handle,
                        ctx: VfsCtx { path: path.copy(), writer: cap.id() },
                        data,
                    },
                );
            },
            NodeKind::Dir { .. } => {
                return Err(VfsError::IsDir);
            },
        }
        let bytes = bytes_to_vec(&data);
        let bytes_len: usize = bytes.len();
        self.swap(id, NodeKind::File { content: bytes }, Ghost(path@));
        Ok(
            WriteStep::Stored(
                WriteEvent { path: path.copy(), node: NodeId(id), bytes_len, writer: cap.id() },
            ),
        )
    }

    /// What stands in memory at `path`.
    pub fn stat(&self, path: &VfsPath) -> (r: VfsResult<StatStep>)
        requires
            self.wf(),
        ensures
            match lookup(self@.tree, path@) {
                Lookup::Found(EntryModel::Dir) => r matches Ok(StatStep::Known(s)) && s == (VfsStat {
                    kind: EntryKind::Dir,
                    len: 0,
                }),
                Lookup::Found(EntryModel::File(bytes)) => r matches Ok(StatStep::Known(s)) && s == (
                VfsStat { kind: EntryKind::File, len: bytes.len() as u64 }),
                Lookup::Found(EntryModel::Synthetic(_)) => r matches Ok(StatStep::Known(s)) && s
                    == (VfsStat { kind: EntryKind::Synthetic, len: 0 }),
                Lookup::NotFound => r matches Ok(StatStep::Host),
                Lookup::NotADir => r matches Err(VfsError::NotADir),
            },
    {
        let ghost c = crate::arena::arena_contents(self.arena);
        proof {
            lemma_walk_is_lookup(c, self.root, path@);
            lemma_walk_live(c, self.root, path@);
            assert(path@.take(path@.len() as int) =~= path@);
        }
        match self.resolve(path, path.depth()) {
            Ok(id) => match &self.arena.get(id).kind {
                NodeKind::Dir { .. } => Ok(
                    StatStep::Known(VfsStat { kind: EntryKind::Dir, len: 0 }),
                ),
                NodeKind::File { content } => Ok(
                    StatStep::Known(VfsStat { kind: EntryKind::File, len: content.len() as u64 }),
                ),
                NodeKind::Synthetic(_) => Ok(
                    StatStep::Known(VfsStat { kind: EntryKind::Synthetic, len: 0 }),
                ),
            },
            Err(VfsError::NotFound) => Ok(StatStep::Host),
            Err(e) => Err(e),
        }
    }
}

/// Once the way has ended, it does not go on.
proof fn lemma_walk_stuck(c: Map<u64, Node>, root: u64, path: Seq<Seq<char>>, k: int)
    requires
        0 <= k <= path.len(),
        !(walk(c, root, path.take(k)) is Found),
    ensures
        walk(c, root, path) == walk(c, root, path.take(k)),
    decreases path.len() - k,
{
    if k < path.len() {
        assert(path.take(k + 1).drop_last() =~= path.take(k));
        lemma_walk_stuck(c, root, path, k + 1);
    } else {
        assert(path.take(k) =~= path);
    }
}

/// `entries` are the entries that `tree` has in the directory `path`, each
/// once, in some order.
pub open spec fn is_listing(entries: Seq<EntryView>, tree: Tree, path: Seq<Seq<char>>) -> bool {
    &&& forall|i: int|
        0 <= i < entries.len() ==> tree.dom().contains(path.push((#[trigger] entries[i]).name))
            && kind_of(tree[path.push(entries[i].name)]) == entries[i].kind
    &&& forall|i: int, j: int|
        0 <= i < j < entries.len() ==> (#[trigger] entries[i]).name != (#[trigger] entries[j]).name
    &&& forall|name: Seq<char>| #[trigger]
        tree.dom().contains(path.push(name)) ==> exists|i: int|
            0 <= i < entries.len() && (#[trigger] entries[i]).name == name
}

/// What memory has at `path`: the entries of the directory that stands there,
/// none where nothing does.
pub open spec fn arena_listing(entries: Seq<EntryView>, tree: Tree, path: Seq<Seq<char>>) -> bool {
    match lookup(tree, path) {
        Lookup::Found(EntryModel::Dir) => is_listing(entries, tree, path),
        Lookup::NotFound => entries.len() == 0,
        _ => false,
    }
}

/// One of `entries` has this name.
pub open spec fn has_name(entries: Seq<EntryView>, name: Seq<char>) -> bool {
    exists|i: int| 0 <= i < entries.len() && (#[trigger] entries[i]).name == name
}

/// `base`, and each entry of `host` whose name is not there yet.
pub open spec fn merged(base: Seq<EntryView>, host: Seq<EntryView>) -> Seq<EntryView>
    decreases host.len(),
{
    if host.len() == 0 {
        base
    } else {
        let before = merged(base, host.drop_last());
        if has_name(before, host.last().name) {
            before
        } else {
            before.push(host.last())
        }
    }
}

/// The listing that memory and host come to together. Entries in memory hide
/// those of the host; a directory that has no entry in memory and no mount
/// counts as missing.
pub open spec fn listing_of(
    r: VfsResult<Vec<DirEntry>>,
    base: Seq<EntryView>,
    host: HostListing,
) -> bool {
    match host {
        HostListing::Nowhere => if base.len() == 0 {
            r matches Err(VfsError::NotFound)
        } else {
            r matches Ok(out) && entry_views(out@) == crate::order::sorted(base)
        },
        HostListing::NotADir => if base.len() == 0 {
            r matches Err(VfsError::NotADir)
        } else {
            r matches Ok(out) && entry_views(out@) == base
        },
        HostListing::Dir(h) => r matches Ok(out) && entry_views(out@) == crate::order::sorted(
            merged(base, entry_views(h@)),
        ),
    }
}

fn name_taken(entries: &Vec<DirEntry>, name: &str) -> (r: bool)
    ensures
        r == has_name(entry_views(entries@), name@),
{
    let ghost all = entry_views(entries@);
    let mut i: usize = 0;
    while i < entries.len()
        invariant
            i <= entries.len(),
            all == entry_views(entries@),
            forall|j: int| 0 <= j < i ==> (#[trigger] all[j]).name != name@,
        decreases entries.len() - i,
    {
        proof {
            assert(all[i as int] == entries@[i as int]@);
        }
        if same_text(entries[i].name.as_str(), name) {
            return true;
        }
        i = i + 1;
    }
    false
}

/// Brings together what memory and host have in a directory.
pub fn merge_listing(base: Vec<DirEntry>, host: HostListing) -> (r: VfsResult<Vec<DirEntry>>)
    ensures
        listing_of(r, entry_views(base@), host),
{
    proof {
        crate::order::lemma_sorted_map(base@, |e: DirEntry| e@);
    }
    match host {
        HostListing::Nowhere => {
            if base.len() == 0 {
                return Err(VfsError::NotFound);
            }
            Ok(sort_stable(base))
        },
        HostListing::NotADir => {
            if base.len() == 0 {
                return Err(VfsError::NotADir);
            }
            Ok(base)
        },
        HostListing::Dir(entries) => {
            let ghost own = entry_views(base@);
            let ghost all = entry_views(entries@);
            let mut out = base;
            let mut i: usize = 0;
            while i < entries.len()
                invariant
                    i <= entries.len(),
                    all == entry_views(entries@),
                    entry_views(out@) == merged(own, all.take(i as int)),
                decreases entries.len() - i,
            {
                let ghost before = entry_views(out@);
                proof {
                    assert(all.take(i + 1).drop_last() =~= all.take(i as int));
                    assert(all.take(i + 1).last() == entries@[i as int]@);
                }
                if !name_taken(&out, entries[i].name.as_str()) {
                    out.push(
                        DirEntry { name: owned(entries[i].name.as_str()), kind: entries[i].kind },
                    );
                    proof {
                        assert(entry_views(out@) =~= before.push(entries@[i as int]@));
                    }
                }
                i = i + 1;
            }
            proof {
                assert(all.take(all.len() as int) =~= all);
                crate::order::lemma_sorted_map(out@, |e: DirEntry| e@);
            }
            Ok(sort_stable(out))
        },
    }
}

impl Vfs {
    /// The entries that memory has in the directory at `path`; none where
    /// nothing stands there.
    pub fn list_arena(&self, path: &VfsPath) -> (r: VfsResult<Vec<DirEntry>>)
        requires
            self.wf(),
        ensures
            match lookup(self@.tree, path@) {
                Lookup::Found(EntryModel::Dir) => r matches Ok(out) && arena_listing(
                    entry_views(out@),
                    self@.tree,
                    path@,
                ),
                Lookup::NotFound => r matches Ok(out) && arena_listing(
                    entry_views(out@),
                    self@.tree,
                    path@,
                ),
                _ => r matches Err(VfsError::NotADir),
            },
    {
        let ghost c = crate::arena::arena_contents(self.arena);
        proof {
            lemma_walk_is_lookup(c, self.root, path@);
            lemma_walk_live(c, self.root, path@);
            assert(path@.take(path@.len() as int) =~= path@);
        }
        let id: u64 = match self.resolve(path, path.depth()) {
            Ok(id) => id,
            Err(VfsError::NotFound) => {
                return Ok(Vec::new());
            },
            Err(e) => {
                return Err(e);
            },
        };
        match &self.arena.get(id).kind {
            NodeKind::Dir { children } => {
                let mut out: Vec<DirEntry> = Vec::new();
                let mut i: usize = 0;
                while i < children.len()
                    invariant
                        i <= children.len(),
                        self.wf(),
                        c == crate::arena::arena_contents(self.arena),
                        c.dom().contains(id),
                        children@ == kids(c[id]),
                        out@.len() == i,
                        forall|j: int|
                            0 <= j < i ==> (#[trigger] out@[j])@ == (EntryView {
                                name: children@[j].name@,
                                kind: kind_of(entry_of(c[children@[j].id.0])),
                            }),
                    decreases children.len() - i,
                {
                    proof {
                        assert(c.dom().contains(kids(c[id])[i as int].id.0));
                    }
                    let kind = match &self.arena.get(children[i].id.0).kind {
                        NodeKind::Dir { .. } => EntryKind::Dir,
                        NodeKind::File { .. } => EntryKind::File,
                        NodeKind::Synthetic(_) => EntryKind::Synthetic,
                    };
                    out.push(DirEntry { name: owned(children[i].name.as_str()), kind });
                    i = i + 1;
                }
                proof {
                    lemma_listing_of_kids(c, self.root, path@, id, entry_views(out@));
                }
                Ok(out)
            },
            _ => Err(VfsError::NotADir),
        }
    }

    /// Lists the directory at `path`, with what the host has there.
    pub fn list(&self, path: &VfsPath, host: HostListing) -> (r: VfsResult<Vec<DirEntry>>)
        requires
            self.wf(),
        ensures
            match lookup(self@.tree, path@) {
                Lookup::Found(EntryModel::Dir) => exists|base: Seq<EntryView>|
                    #[trigger] arena_listing(base, self@.tree, path@) && listing_of(r, base, host),
                Lookup::NotFound => listing_of(r, Seq::empty(), host),
                _ => r matches Err(VfsError::NotADir),
            },
    {
        let base = self.list_arena(path)?;
        let ghost own = entry_views(base@);
        let r = merge_listing(base, host);
        proof {
            if lookup(self@.tree, path@) is NotFound {
                assert(own =~= Seq::<EntryView>::empty());
            }
            assert(arena_listing(own, self@.tree, path@) && listing_of(r, own, host));
        }
        r
    }

    /// Mounts a directory of the host at `virtual_path`, in place of one that
    /// was mounted there before. The deepest mounts come first.
    pub fn mount_host(&mut self, virtual_path: &VfsPath, host_path: String) -> (r: VfsResult<()>)
        requires
            old(self).wf(),
            old(self).node_count() + virtual_path@.len() <= crate::arena::arena_limit(),
        ensures
            final(self).wf(),
            final(self).node_count() <= old(self).node_count() + virtual_path@.len(),
            match r {
                Ok(_) => !way_blocked(old(self)@.tree, virtual_path@) && final(self)@.tree
                    == with_dirs(old(self)@.tree, virtual_path@, virtual_path@.len() as int)
                    && final(self)@.mounts == crate::order::sorted(
                    mounts_elsewhere(old(self)@.mounts, virtual_path@).push(
                        HostMountModel { at: virtual_path@, host: host_path@ },
                    ),
                ),
                Err(e) => way_blocked(old(self)@.tree, virtual_path@) && e is NotADir
                    && final(self)@.tree == old(self)@.tree && final(self)@.mounts
                    == old(self)@.mounts && final(self).node_count() == old(self).node_count(),
            },
            forall|q: Seq<Seq<char>>|
                (#[trigger] old(self).node_at(q)) is Some ==> final(self).node_at(q)
                    == old(self).node_at(q),
    {
        self.mkdir_p(virtual_path)?;
        let ghost before = self@.mounts;
        let ghost host = host_path@;
        let mut rest: Vec<HostMount> = Vec::new();
        let mut i: usize = 0;
        proof {
            assert(mount_models(rest@) =~= mounts_elsewhere(before.take(0), virtual_path@));
        }
        while i < self.host_mounts.len()
            invariant
                i <= self.host_mounts.len(),
                before == mount_models(self.host_mounts@),
                mount_models(rest@) == mounts_elsewhere(before.take(i as int), virtual_path@),
            decreases self.host_mounts.len() - i,
        {
            let m = &self.host_mounts[i];
            let ghost kept = mount_models(rest@);
            proof {
                assert(before.take(i + 1).drop_last() =~= before.take(i as int));
                assert(before.take(i + 1).last() == m@);
            }
            if !m.virtual_path.same_as(virtual_path) {
                rest.push(
                    HostMount {
                        virtual_path: m.virtual_path.copy(),
                        host_path: owned(m.host_path.as_str()),
                    },
                );
                proof {
                    assert(mount_models(rest@) =~= kept.push(m@));
                }
            }
            i = i + 1;
        }
        let ghost kept = mount_models(rest@);
        let added = HostMount { virtual_path: virtual_path.copy(), host_path };
        let ghost last = added@;
        rest.push(added);
        proof {
            assert(before.take(before.len() as int) =~= before);
            assert(mount_models(rest@) =~= kept.push(last));
            crate::order::lemma_sorted_map(rest@, |m: HostMount| m@);
        }
        self.host_mounts = sort_stable(rest);
        Ok(())
    }

    /// Where on the host `path` may be: below the first mount that covers it.
    pub fn host_path_for(&self, path: &VfsPath) -> (r: Option<HostCandidate>)
        ensures
            match covering_mount(self@.mounts, path@, 0) {
                Some(m) => r matches Some(h) && h.root@ == m.host && h.path@ == host_joined(
                    m.host,
                    path@.skip(m.at.len() as int),
                ),
                None => r is None,
            },
    {
        let ghost mounts = self@.mounts;
        let mut i: usize = 0;
        while i < self.host_mounts.len()
            invariant
                i <= self.host_mounts.len(),
                mounts == mount_models(self.host_mounts@),
                mounts == self@.mounts,
                covering_mount(mounts, path@, 0) == covering_mount(mounts, path@, i as int),
            decreases self.host_mounts.len() - i,
        {
            let m = &self.host_mounts[i];
            proof {
                assert(mounts[i as int] == m@);
            }
            if path.starts_with(&m.virtual_path) {
                let from: usize = m.virtual_path.depth();
                let mut host = owned(m.host_path.as_str());
                let mut k: usize = from;
                let ghost rest = path@.skip(from as int);
                proof {
                    assert(rest.take(0) =~= Seq::<Seq<char>>::empty());
                }
                let n: usize = path.depth();
                while k < n
                    invariant
                        from <= k <= n,
                        n == path@.len(),
                        rest == path@.skip(from as int),
                        host@ == host_joined(m.host_path@, rest.take(k - from)),
                    decreases n - k,
                {
                    proof {
                        assert(rest.take(k - from + 1).drop_last() =~= rest.take(k - from));
                        assert(rest.take(k - from + 1).last() == path@[k as int]);
                    }
                    host = join_path(host.as_str(), path.segment(k));
                    k = k + 1;
                }
                proof {
                    assert(rest.take(rest.len() as int) =~= rest);
                }
                return Some(HostCandidate { root: owned(m.host_path.as_str()), path: host });
            }
            i = i + 1;
        }
        None
    }
}

/// Whether a host path, with its links followed, still lies in the directory
/// that was mounted.
pub fn accept_host_path(candidate: &HostCandidate, canonical: &str) -> (r: bool)
    ensures
        r == crate::host_path::is_under(canonical@, candidate.root@),
{
    path_starts_with(canonical, candidate.root.as_str())
}

/// What is announced after a synthetic write.
pub fn outcome_event(outcome: WriteOutcome) -> (r: Option<WriteEvent>)
    ensures
        match outcome {
            WriteOutcome::Stored => r is None,
            WriteOutcome::Emit(ev) => r == Some(ev),
        },
{
    match outcome {
        WriteOutcome::Stored => None,
        WriteOutcome::Emit(ev) => Some(ev),
    }
}

proof fn lemma_listing_of_kids(
    c: Map<u64, Node>,
    root: u64,
    path: Seq<Seq<char>>,
    id: u64,
    entries: Seq<EntryView>,
)
    requires
        is_tree(c, root),
        walk(c, root, path) == Walk::Found(id),
        c[id].kind is Dir,
        entries.len() == kids(c[id]).len(),
        forall|i: int|
            0 <= i < entries.len() ==> (#[trigger] entries[i]) == (EntryView {
                name: kids(c[id])[i].name@,
                kind: kind_of(entry_of(c[kids(c[id])[i].id.0])),
            }),
    ensures
        is_listing(entries, tree_of(c, root), path),
{
    let tree = tree_of(c, root);
    lemma_walk_live(c, root, path);
    assert forall|i: int| 0 <= i < entries.len() implies tree.dom().contains(
        path.push((#[trigger] entries[i]).name),
    ) && kind_of(tree[path.push(entries[i].name)]) == entries[i].kind by {
        let q = path.push(entries[i].name);
        assert(q.drop_last() =~= path);
        lemma_child_named(kids(c[id]), entries[i].name, 0);
        let k = choose|k: int|
            0 <= k < kids(c[id]).len() && (#[trigger] kids(c[id])[k]).name@ == entries[i].name
                && child_named(kids(c[id]), entries[i].name, 0) == Some(kids(c[id])[k].id.0);
        assert(kids(c[id])[i].name@ == entries[i].name);
        if k < i {
            assert(kids(c[id])[k].name@ != kids(c[id])[i].name@);
        } else if i < k {
            assert(kids(c[id])[i].name@ != kids(c[id])[k].name@);
        }
    }
    assert forall|i: int, j: int| 0 <= i < j < entries.len() implies (#[trigger] entries[i]).name
        != (#[trigger] entries[j]).name by {
        assert(kids(c[id])[i].name@ != kids(c[id])[j].name@);
    }
    assert forall|name: Seq<char>| #[trigger] tree.dom().contains(path.push(name)) implies exists|
        i: int,
    |
        0 <= i < entries.len() && (#[trigger] entries[i]).name == name by {
        let q = path.push(name);
        assert(q.drop_last() =~= path);
        assert(walk(c, root, q) is Found);
        lemma_child_named(kids(c[id]), name, 0);
        let k = choose|k: int|
            0 <= k < kids(c[id]).len() && (#[trigger] kids(c[id])[k]).name@ == name && child_named(
                kids(c[id]),
                name,
                0,
            ) == Some(kids(c[id])[k].id.0);
        assert(entries[k].name == name);
    }
}

/// The root is a directory, and everything else stands in a directory.
pub open spec fn is_closed(tree: Tree) -> bool {
    &&& tree.dom().contains(Seq::<Seq<char>>::empty())
    &&& tree[Seq::<Seq<char>>::empty()] == EntryModel::Dir
    &&& forall|q: Seq<Seq<char>>| #[trigger]
        tree.dom().contains(q) && q.len() > 0 ==> tree.dom().contains(q.drop_last())
            && tree[q.drop_last()] == EntryModel::Dir
}

/// In every filesystem, everything but the root stands in a directory.
pub proof fn lemma_filesystem_is_closed(v: Vfs)
    requires
        v.wf(),
    ensures
        is_closed(v@.tree),
{
    let c = crate::arena::arena_contents(v.arena);
    let tree = v@.tree;
    assert(walk(c, v.root, Seq::<Seq<char>>::empty()) is Found);
    assert forall|q: Seq<Seq<char>>| #[trigger] tree.dom().contains(q) && q.len() > 0 implies tree.dom().contains(
        q.drop_last(),
    ) && tree[q.drop_last()] == EntryModel::Dir by {
        assert(walk(c, v.root, q) is Found);
    }
}

/// In a closed tree, following a path finds exactly what stands there.
pub proof fn lemma_lookup_finds(tree: Tree, path: Seq<Seq<char>>)
    requires
        is_closed(tree),
    ensures
        tree.dom().contains(path) <==> lookup(tree, path) is Found,
        tree.dom().contains(path) ==> lookup(tree, path) == Lookup::Found(tree[path]),
    decreases path.len(),
{
    if path.len() > 0 {
        lemma_lookup_finds(tree, path.drop_last());
    } else {
        assert(path =~= Seq::<Seq<char>>::empty());
    }
}

/// A file that was written is read back with those bytes, and every other
/// path is as it was.
pub proof fn lemma_read_after_write(
    tree: Tree,
    path: Seq<Seq<char>>,
    was: Seq<u8>,
    bytes: Seq<u8>,
    other: Seq<Seq<char>>,
)
    requires
        lookup(tree, path) == Lookup::Found(EntryModel::File(was)),
    ensures
        lookup(tree.insert(path, EntryModel::File(bytes)), path) == Lookup::Found(
            EntryModel::File(bytes),
        ),
        other != path ==> lookup(tree.insert(path, EntryModel::File(bytes)), other) == lookup(
            tree,
            other,
        ),
    decreases path.len() + other.len(),
{
    if path.len() > 0 {
        assert(path.drop_last() != path) by {
            assert(path.drop_last().len() != path.len());
        }
        lemma_write_keeps(tree, path, was, bytes, path.drop_last());
    }
    if other != path {
        lemma_write_keeps(tree, path, was, bytes, other);
    }
}

proof fn lemma_write_keeps(
    tree: Tree,
    path: Seq<Seq<char>>,
    was: Seq<u8>,
    bytes: Seq<u8>,
    other: Seq<Seq<char>>,
)
    requires
        lookup(tree, path) == Lookup::Found(EntryModel::File(was)),
        other != path,
    ensures
        lookup(tree.insert(path, EntryModel::File(bytes)), other) == lookup(tree, other),
    decreases other.len(),
{
    if other.len() > 0 {
        let head = other.drop_last();
        if head == path {
            lemma_write_found(tree, path, was, bytes);
        } else {
            lemma_write_keeps(tree, path, was, bytes, head);
        }
    }
}

proof fn lemma_write_found(tree: Tree, path: Seq<Seq<char>>, was: Seq<u8>, bytes: Seq<u8>)
    requires
        lookup(tree, path) == Lookup::Found(EntryModel::File(was)),
    ensures
        lookup(tree.insert(path, EntryModel::File(bytes)), path) == Lookup::Found(
            EntryModel::File(bytes),
        ),
{
    if path.len() > 0 {
        assert(path.drop_last().len() != path.len());
        lemma_write_below(tree, path, bytes, path.drop_last());
    }
}

proof fn lemma_write_below(
    tree: Tree,
    path: Seq<Seq<char>>,
    bytes: Seq<u8>,
    other: Seq<Seq<char>>,
)
    requires
        other.len() < path.len(),
    ensures
        lookup(tree.insert(path, EntryModel::File(bytes)), other) == lookup(tree, other),
    decreases other.len(),
{
    if other.len() > 0 {
        lemma_write_below(tree, path, bytes, other.drop_last());
        assert(other != path);
    }
}

/// A file that was made is read back with its contents.
pub proof fn lemma_read_after_create(tree: Tree, path: Seq<Seq<char>>, bytes: Seq<u8>)
    requires
        has_place(tree, path),
    ensures
        lookup(tree.insert(path, EntryModel::File(bytes)), path) == Lookup::Found(
            EntryModel::File(bytes),
        ),
{
    lemma_write_below(tree, path, bytes, path.drop_last());
}

/// Where the way is free, making a directory leaves something at its path, and
/// a directory wherever nothing stood before.
pub proof fn lemma_mkdir_makes_path(tree: Tree, path: Seq<Seq<char>>)
    requires
        is_closed(tree),
        !way_blocked(tree, path),
    ensures
        with_dirs(tree, path, path.len() as int).dom().contains(path),
        !tree.dom().contains(path) ==> with_dirs(tree, path, path.len() as int)[path]
            == EntryModel::Dir,
        is_closed(with_dirs(tree, path, path.len() as int)),
        forall|q: Seq<Seq<char>>| #[trigger]
            tree.dom().contains(q) ==> with_dirs(tree, path, path.len() as int).dom().contains(q)
                && with_dirs(tree, path, path.len() as int)[q] == tree[q],
{
    lemma_with_dirs(tree, path, path.len() as int);
    assert(path.take(path.len() as int) =~= path);
}

proof fn lemma_with_dirs(tree: Tree, path: Seq<Seq<char>>, n: int)
    requires
        is_closed(tree),
        !way_blocked(tree, path),
        0 <= n <= path.len(),
    ensures
        with_dirs(tree, path, n).dom().contains(path.take(n)),
        !tree.dom().contains(path.take(n)) || n < path.len() ==> with_dirs(tree, path, n)[path.take(
            n,
        )] == EntryModel::Dir,
        is_closed(with_dirs(tree, path, n)),
        forall|q: Seq<Seq<char>>| #[trigger]
            tree.dom().contains(q) ==> with_dirs(tree, path, n).dom().contains(q) && with_dirs(
                tree,
                path,
                n,
            )[q] == tree[q],
        forall|q: Seq<Seq<char>>|
            (#[trigger] with_dirs(tree, path, n).dom().contains(q)) && !tree.dom().contains(q)
                ==> with_dirs(tree, path, n)[q] == EntryModel::Dir,
    decreases n,
{
    if n == 0 {
        assert(path.take(0) =~= Seq::<Seq<char>>::empty());
    } else {
        lemma_with_dirs(tree, path, n - 1);
        let before = with_dirs(tree, path, n - 1);
        let after = with_dirs(tree, path, n);
        let here = path.take(n);
        assert(here.drop_last() =~= path.take(n - 1));
        if tree.dom().contains(path.take(n)) && n < path.len() {
            assert(tree[path.take(n)] == EntryModel::Dir);
        }
        assert forall|q: Seq<Seq<char>>| #[trigger] after.dom().contains(q) && q.len()
            > 0 implies after.dom().contains(q.drop_last()) && after[q.drop_last()]
            == EntryModel::Dir by {
            if !before.dom().contains(q) {
                assert(q == here);
                assert(before.dom().contains(here.drop_last()));
                assert(here.drop_last() != here) by {
                    assert(here.drop_last().len() != here.len());
                }
            } else {
                assert(before.dom().contains(q.drop_last()));
                if q.drop_last() == here && !before.dom().contains(here) {
                    assert(false);
                }
            }
        }
    }
}

/// Of the mounts that cover a path, one of the deepest is taken.
pub proof fn lemma_deepest_mount_wins(
    mounts: Seq<HostMountModel>,
    path: Seq<Seq<char>>,
    i: int,
)
    requires
        crate::order::in_order(mounts),
        0 <= i < mounts.len(),
        mounts[i].at.is_prefix_of(path),
    ensures
        covering_mount(mounts, path, 0) matches Some(m) && m.at.is_prefix_of(path) && m.at.len()
            >= mounts[i].at.len(),
{
    lemma_covering(mounts, path, 0, i);
}

proof fn lemma_covering(mounts: Seq<HostMountModel>, path: Seq<Seq<char>>, from: int, i: int)
    requires
        crate::order::in_order(mounts),
        0 <= from <= i < mounts.len(),
        mounts[i].at.is_prefix_of(path),
    ensures
        covering_mount(mounts, path, from) matches Some(m) && m.at.is_prefix_of(path) && m.at.len()
            >= mounts[i].at.len(),
    decreases i - from,
{
    if mounts[from].at.is_prefix_of(path) {
        if from < i {
            assert(!mounts[i].before(mounts[from]));
        }
    } else {
        lemma_covering(mounts, path, from + 1, i);
    }
}

/// Mounting keeps the mounts in the order of their depth.
pub proof fn lemma_mounts_stay_ordered(mounts: Seq<HostMountModel>)
    ensures
        crate::order::in_order(crate::order::sorted(mounts)),
{
    crate::order::lemma_sorted_in_order(mounts);
}

/// A listing comes sorted by name.
pub proof fn lemma_listing_is_sorted(entries: Seq<EntryView>)
    ensures
        crate::order::in_order(crate::order::sorted(entries)),
{
    assert forall|a: EntryView, b: EntryView, c: EntryView|
        #![trigger a.before(b), b.before(c)]
        a.before(b) && b.before(c) implies a.before(c) by {
        crate::order::lemma_text_lt_transitive(a.name, b.name, c.name);
    }
    assert forall|a: EntryView, b: EntryView, c: EntryView|
        #![trigger a.before(c), a.before(b)]
        a.before(c) implies a.before(b) || b.before(c) by {
        crate::order::lemma_text_lt_total(a.name, b.name);
        if crate::order::text_lt(b.name, a.name) {
            crate::order::lemma_text_lt_transitive(b.name, a.name, c.name);
        }
    }
    assert forall|a: EntryView| !(#[trigger] a.before(a)) by {
        crate::order::lemma_text_lt_total(a.name, a.name);
    }
    crate::order::lemma_sorted_in_order(entries);
}

} // verus!
