//! The store of a filesystem's nodes, and its byte buffers.

use vstd::prelude::*;

verus! {

/// `bytes::Bytes`, an immutable buffer of bytes.
#[verifier::external_type_specification]
#[verifier::external_body]
pub struct ExBytes(bytes::Bytes);

/// The bytes that a buffer holds.
pub uninterp spec fn bytes_contents(b: bytes::Bytes) -> Seq<u8>;

/// `bytes::Bytes::from` a vector: the buffer holds the bytes of the vector.
#[verifier::external_body]
pub(crate) fn bytes_from(v: Vec<u8>) -> (r: bytes::Bytes)
    ensures
        bytes_contents(r) == v@,
{
    bytes::Bytes::from(v)
}

/// `bytes::Bytes::copy_from_slice`: the buffer holds a copy of the bytes.
#[verifier::external_body]
pub(crate) fn bytes_copied(v: &[u8]) -> (r: bytes::Bytes)
    ensures
        bytes_contents(r) == v@,
{
    bytes::Bytes::copy_from_slice(v)
}

/// `to_vec` on what `bytes::Bytes` dereferences to: a copy of the bytes.
#[verifier::external_body]
pub(crate) fn bytes_to_vec(b: &bytes::Bytes) -> (r: Vec<u8>)
    ensures
        r@ == bytes_contents(*b),
{
    b.to_vec()
}

/// `std::time::SystemTime`, carried and never looked into.
#[verifier::external_type_specification]
#[verifier::external_body]
pub struct ExSystemTime(std::time::SystemTime);

/// `SystemTime::now`. Nothing is stated of the instant that it returns: it is
/// the machine's clock.
pub assume_specification[ std::time::SystemTime::now ]() -> (r: std::time::SystemTime)
;

/// Stable key of a node.
#[derive(Clone, Copy, Debug, PartialEq, Eq, Hash, Structural)]
pub struct NodeId(pub u64);

/// A name in a directory and the node it leads to.
pub struct Child {
    pub name: String,
    pub id: NodeId,
}

/// What a node is. The code behind a synthetic file is known by a handle.
pub enum NodeKind {
    Dir { children: Vec<Child> },
    File { content: Vec<u8> },
    Synthetic(u64),
}

/// One node of a filesystem.
pub struct Node {
    pub name: String,
    pub parent: Option<NodeId>,
    pub mtime: std::time::SystemTime,
    pub kind: NodeKind,
}

impl Node {
    /// The node of the root.
    pub fn dir_root() -> (r: Node)
        ensures
            r.name@.len() == 0,
            r.parent is None,
            r.kind matches NodeKind::Dir { children } && children@.len() == 0,
    {
        Node {
            name: String::new(),
            parent: None,
            mtime: std::time::SystemTime::now(),
            kind: NodeKind::Dir { children: Vec::new() },
        }
    }

    /// An empty directory.
    pub fn dir(name: String, parent: Option<NodeId>) -> (r: Node)
        ensures
            r.name == name,
            r.parent == parent,
            r.kind matches NodeKind::Dir { children } && children@.len() == 0,
    {
        Node {
            name,
            parent,
            mtime: std::time::SystemTime::now(),
            kind: NodeKind::Dir { children: Vec::new() },
        }
    }

    /// A file with the given contents.
    pub fn file(name: String, parent: Option<NodeId>, content: Vec<u8>) -> (r: Node)
        ensures
            r.name == name,
            r.parent == parent,
            r.kind == (NodeKind::File { content }),
    {
        Node { name, parent, mtime: std::time::SystemTime::now(), kind: NodeKind::File { content } }
    }

    /// A synthetic file with the given handle.
    pub fn synthetic(name: String, parent: Option<NodeId>, handle: u64) -> (r: Node)
        ensures
            r.name == name,
            r.parent == parent,
            r.kind == NodeKind::Synthetic(handle),
    {
        Node {
            name,
            parent,
            mtime: std::time::SystemTime::now(),
            kind: NodeKind::Synthetic(handle),
        }
    }
}

/// The nodes of a filesystem, in a `slotmap::SlotMap`.
#[verifier::external_body]
pub struct Arena {
    slots: slotmap::SlotMap<slotmap::DefaultKey, Node>,
}

/// The live nodes, by the number that `slotmap::KeyData::as_ffi` gives for
/// their keys.
pub uninterp spec fn arena_contents(a: Arena) -> Map<u64, Node>;

/// How many nodes fit: a slot map has at most `u32::MAX` slots, and keeps one
/// of them for itself.
pub open spec fn arena_limit() -> nat {
    0xffff_fffe
}

impl Arena {
    /// `slotmap::SlotMap::with_capacity_and_key`: an empty slot map. The
    /// capacity is a hint, and bounded so that the size of the allocation in
    /// bytes cannot overflow.
    #[verifier::external_body]
    pub(crate) fn with_capacity(capacity: usize) -> (r: Arena)
        requires
            (capacity + 1) * 4096 <= isize::MAX,
        ensures
            arena_contents(r).dom() == Set::<u64>::empty(),
    {
        Arena { slots: slotmap::SlotMap::with_capacity_and_key(capacity) }
    }

    /// `slotmap::SlotMap::insert`: the node is stored under a key that no live
    /// node has; every other node stays. It panics where the map is full.
    #[verifier::external_body]
    pub(crate) fn insert(&mut self, node: Node) -> (r: u64)
        requires
            arena_contents(*old(self)).dom().finite(),
            arena_contents(*old(self)).dom().len() < arena_limit(),
        ensures
            !arena_contents(*old(self)).dom().contains(r),
            arena_contents(*final(self)) == arena_contents(*old(self)).insert(r, node),
    {
        slotmap::Key::data(&self.slots.insert(node)).as_ffi()
    }

    /// `slotmap::SlotMap::len`: the number of live nodes.
    #[verifier::external_body]
    pub(crate) fn len(&self) -> (r: usize)
        ensures
            r == arena_contents(*self).dom().len(),
    {
        self.slots.len()
    }

    /// Indexing a `slotmap::SlotMap` by a live key.
    #[verifier::external_body]
    pub(crate) fn get(&self, id: u64) -> (r: &Node)
        requires
            arena_contents(*self).dom().contains(id),
        ensures
            *r == arena_contents(*self)[id],
    {
        &self.slots[slotmap::DefaultKey::from(slotmap::KeyData::from_ffi(id))]
    }

    /// Indexing a `slotmap::SlotMap` by a live key, to change the node: what
    /// is done through the reference is done to that node alone.
    #[verifier::external_body]
    pub(crate) fn get_mut(&mut self, id: u64) -> (r: &mut Node)
        requires
            arena_contents(*old(self)).dom().contains(id),
        ensures
            *r == arena_contents(*old(self))[id],
            arena_contents(*final(self)) == arena_contents(*old(self)).insert(id, *final(r)),
    {
        &mut self.slots[slotmap::DefaultKey::from(slotmap::KeyData::from_ffi(id))]
    }
}

} // verus!
