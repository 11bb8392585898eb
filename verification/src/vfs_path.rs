//! Paths, errors and capabilities of the virtual filesystem.

use vstd::prelude::*;

use crate::text::{
    cat, clone_texts, debug_of, has_char, is_empty_text, owned, same_text, split_text,
};

verus! {

/// Why a filesystem operation was refused.
#[derive(Debug)]
pub enum VfsError {
    NotFound,
    IsDir,
    NotADir,
    AlreadyExists,
    PermissionDenied,
    InvalidPath(String),
    Synthetic(String),
    Io(String),
}

pub type VfsResult<T> = Result<T, VfsError>;

impl VfsError {
    /// The message shown for this error.
    pub open spec fn text(&self) -> Seq<char> {
        match self {
            VfsError::NotFound => "path not found"@,
            VfsError::IsDir => "is a directory"@,
            VfsError::NotADir => "not a directory"@,
            VfsError::AlreadyExists => "already exists"@,
            VfsError::PermissionDenied => "permission denied"@,
            VfsError::InvalidPath(m) => "invalid path: "@ + m@,
            VfsError::Synthetic(m) => "synthetic node refused operation: "@ + m@,
            VfsError::Io(m) => "io: "@ + m@,
        }
    }

    /// The message shown for this error.
    pub fn message(&self) -> (r: String)
        ensures
            r@ == self.text(),
    {
        match self {
            VfsError::NotFound => owned("path not found"),
            VfsError::IsDir => owned("is a directory"),
            VfsError::NotADir => owned("not a directory"),
            VfsError::AlreadyExists => owned("already exists"),
            VfsError::PermissionDenied => owned("permission denied"),
            VfsError::InvalidPath(m) => cat("invalid path: ", m.as_str()),
            VfsError::Synthetic(m) => cat("synthetic node refused operation: ", m.as_str()),
            VfsError::Io(m) => cat("io: ", m.as_str()),
        }
    }
}

/// A segment that names one entry of a directory: not empty, not `.` or `..`,
/// and without a slash.
pub open spec fn valid_segment(s: Seq<char>) -> bool {
    &&& s.len() > 0
    &&& s != "."@
    &&& s != ".."@
    &&& !s.contains('/')
}

/// Every segment names one entry of a directory.
pub open spec fn canonical(segs: Seq<Seq<char>>) -> bool {
    forall|i: int| 0 <= i < segs.len() ==> valid_segment(#[trigger] segs[i])
}

/// The segments left after `.` and `..` have been resolved, or `None` where a
/// `..` would leave the root.
pub open spec fn canonicalized(pieces: Seq<Seq<char>>) -> Option<Seq<Seq<char>>>
    decreases pieces.len(),
{
    if pieces.len() == 0 {
        Some(Seq::empty())
    } else {
        match canonicalized(pieces.drop_last()) {
            None => None,
            Some(out) => {
                let piece = pieces.last();
                if piece.len() == 0 || piece == "."@ {
                    Some(out)
                } else if piece == ".."@ {
                    if out.len() == 0 {
                        None
                    } else {
                        Some(out.drop_last())
                    }
                } else {
                    Some(out.push(piece))
                }
            },
        }
    }
}

/// The segments that the text of a path denotes, or `None` where it would
/// leave the root.
pub open spec fn parsed(s: Seq<char>) -> Option<Seq<Seq<char>>> {
    canonicalized(crate::text::split_on(s, '/'))
}

/// Each segment with a slash before it.
pub open spec fn slashed(segs: Seq<Seq<char>>) -> Seq<char>
    decreases segs.len(),
{
    if segs.len() == 0 {
        Seq::empty()
    } else {
        slashed(segs.drop_last()) + (seq!['/'] + segs.last())
    }
}

/// The text of a path: each segment with a slash before it, `/` for the root.
pub open spec fn displayed(segs: Seq<Seq<char>>) -> Seq<char> {
    if segs.len() == 0 {
        seq!['/']
    } else {
        slashed(segs)
    }
}

/// A path with one more segment, where `seg` is one; anything else adds
/// nothing.
pub open spec fn with_segment(path: Seq<Seq<char>>, seg: Seq<char>) -> Seq<Seq<char>> {
    if valid_segment(seg) {
        path.push(seg)
    } else {
        path
    }
}

/// Canonicalized absolute path: a sequence of non-empty segments, with no `.`
/// or `..` among them and no slash inside one.
#[derive(Debug, PartialEq, Eq, Hash, Default)]
pub struct VfsPath(Vec<String>);

impl View for VfsPath {
    type V = Seq<Seq<char>>;

    closed spec fn view(&self) -> Seq<Seq<char>> {
        crate::text::texts(self.0@)
    }
}

impl VfsPath {
    /// Every path is canonical, however it was made.
    #[verifier::type_invariant]
    pub open spec fn well_formed(self) -> bool {
        canonical(self@)
    }

    pub fn root() -> (r: Self)
        ensures
            r@ == Seq::<Seq<char>>::empty(),
    {
        let none: Vec<String> = Vec::new();
        proof {
            assert(crate::text::texts(none@) =~= Seq::<Seq<char>>::empty());
        }
        VfsPath(none)
    }

    /// Parses a slash-delimited path. Resolves `.` and `..`; returns
    /// `InvalidPath` if `..` would escape the root.
    pub fn parse(s: &str) -> (r: VfsResult<VfsPath>)
        ensures
            match r {
                Ok(p) => parsed(s@) == Some(p@) && canonical(p@),
                Err(e) => parsed(s@) is None && (e matches VfsError::InvalidPath(m) && m@
                    == "path escapes root: "@ + s@),
            },
    {
        let pieces = split_text(s, '/');
        let mut out: Vec<String> = Vec::new();
        let mut i: usize = 0;
        let ghost all = crate::text::split_on(s@, '/');
        proof {
            assert(crate::text::texts(out@) =~= Seq::<Seq<char>>::empty());
            crate::text::lemma_split_on(s@, '/');
        }
        while i < pieces.len()
            invariant
                i <= pieces.len(),
                all == crate::text::split_on(s@, '/'),
                crate::text::texts(pieces@) == all,
                forall|k: int| 0 <= k < all.len() ==> !(#[trigger] all[k]).contains('/'),
                canonicalized(all.take(i as int)) == Some(crate::text::texts(out@)),
                canonical(crate::text::texts(out@)),
            decreases pieces.len() - i,
        {
            let ghost before = crate::text::texts(out@);
            proof {
                assert(all.take(i + 1).drop_last() =~= all.take(i as int));
                assert(all.take(i + 1).last() == pieces@[i as int]@);
            }
            let piece = pieces[i].as_str();
            if is_empty_text(piece) || same_text(piece, ".") {
            } else if same_text(piece, "..") {
                if out.len() == 0 {
                    proof {
                        lemma_escape_persists(all, i + 1);
                    }
                    return Err(VfsError::InvalidPath(cat("path escapes root: ", s)));
                }
                out.pop();
                proof {
                    assert(crate::text::texts(out@) =~= before.drop_last());
                }
            } else {
                out.push(owned(piece));
                proof {
                    assert(crate::text::texts(out@) =~= before.push(pieces@[i as int]@));
                }
            }
            i = i + 1;
        }
        proof {
            assert(all.take(all.len() as int) =~= all);
        }
        Ok(VfsPath(out))
    }

    pub closed spec fn owned_segments(&self) -> Seq<String> {
        self.0@
    }

    pub fn segments(&self) -> (r: &[String])
        ensures
            crate::text::texts(r@) == self@,
            r@ == self.owned_segments(),
    {
        self.0.as_slice()
    }

    /// The number of segments.
    pub fn depth(&self) -> (r: usize)
        ensures
            r == self@.len(),
    {
        self.0.len()
    }

    /// The segment at index `i`.
    pub fn segment(&self, i: usize) -> (r: &str)
        requires
            i < self@.len(),
        ensures
            r@ == self@[i as int],
    {
        self.0[i].as_str()
    }

    pub fn is_root(&self) -> (r: bool)
        ensures
            r == (self@.len() == 0),
    {
        self.0.len() == 0
    }

    pub fn parent(&self) -> (r: Option<VfsPath>)
        ensures
            match r {
                Some(p) => self@.len() > 0 && p@ == self@.drop_last(),
                None => self@.len() == 0,
            },
    {
        proof {
            use_type_invariant(self);
        }
        if self.0.len() == 0 {
            None
        } else {
            let mut s = clone_texts(&self.0);
            s.pop();
            proof {
                let segs = crate::text::texts(s@);
                assert forall|i: int| 0 <= i < self@.len() - 1 implies segs[i] == self@[i] by {
                    assert(crate::text::texts(self.0@)[i] == self.0@[i]@);
                }
                assert(segs =~= self@.drop_last());
            }
            Some(VfsPath(s))
        }
    }

    pub fn last(&self) -> (r: Option<&str>)
        ensures
            match r {
                Some(s) => self@.len() > 0 && s@ == self@.last(),
                None => self@.len() == 0,
            },
    {
        if self.0.len() == 0 {
            None
        } else {
            Some(self.0[self.0.len() - 1].as_str())
        }
    }

    /// This path with `seg` as one more segment. What is no single segment,
    /// `..` above all, adds nothing.
    pub fn join(&self, seg: &str) -> (r: VfsPath)
        ensures
            r@ == with_segment(self@, seg@),
            canonical(r@),
    {
        proof {
            use_type_invariant(self);
        }
        let mut s = clone_texts(&self.0);
        if is_segment(seg) {
            s.push(owned(seg));
            proof {
                let segs = crate::text::texts(s@);
                assert forall|i: int| 0 <= i < self@.len() implies segs[i] == self@[i] by {
                    assert(crate::text::texts(self.0@)[i] == self.0@[i]@);
                }
                assert(segs =~= self@.push(seg@));
            }
        }
        VfsPath(s)
    }

    /// Builds a path from segments that are split already. Each one has to be
    /// a valid segment; the first that is not is named in the error.
    pub fn from_segments(segments: Vec<String>) -> (r: VfsResult<VfsPath>)
        ensures
            match r {
                Ok(p) => canonical(crate::text::texts(segments@)) && p@ == crate::text::texts(
                    segments@,
                ),
                Err(e) => exists|i: int|
                    {
                        &&& 0 <= i < segments@.len()
                        &&& !valid_segment(#[trigger] segments@[i]@)
                        &&& canonical(crate::text::texts(segments@).take(i))
                        &&& e matches VfsError::InvalidPath(m)
                        &&& m@ == "bad segment: "@ + crate::text::debug_text(segments@[i]@)
                    },
            },
    {
        let mut i: usize = 0;
        while i < segments.len()
            invariant
                i <= segments.len(),
                forall|j: int| 0 <= j < i ==> valid_segment(#[trigger] segments@[j]@),
            decreases segments.len() - i,
        {
            let s = segments[i].as_str();
            if !is_segment(s) {
                let quoted = debug_of(s);
                let e = VfsError::InvalidPath(cat("bad segment: ", quoted.as_str()));
                proof {
                    assert(!valid_segment(segments@[i as int]@));
                    let head = crate::text::texts(segments@).take(i as int);
                    assert forall|j: int| 0 <= j < head.len() implies valid_segment(
                        #[trigger] head[j],
                    ) by {
                        assert(head[j] == segments@[j]@);
                    }
                }
                return Err(e);
            }
            i = i + 1;
        }
        proof {
            let all = crate::text::texts(segments@);
            assert forall|j: int| 0 <= j < all.len() implies valid_segment(#[trigger] all[j]) by {
                assert(all[j] == segments@[j]@);
            }
        }
        Ok(VfsPath(segments))
    }

    /// The text of this path.
    pub fn display(&self) -> (r: String)
        ensures
            r@ == displayed(self@),
    {
        let mut out: String = String::new();
        if self.0.len() == 0 {
            out.push('/');
            proof {
                assert(out@ =~= seq!['/']);
            }
            return out;
        }
        let mut i: usize = 0;
        while i < self.0.len()
            invariant
                i <= self.0.len(),
                out@ == slashed(self@.take(i as int)),
            decreases self.0.len() - i,
        {
            let ghost before = out@;
            out.push('/');
            out.append(self.0[i].as_str());
            proof {
                assert(self@.take(i + 1).drop_last() =~= self@.take(i as int));
                assert(out@ =~= before + (seq!['/'] + self@[i as int]));
            }
            i = i + 1;
        }
        proof {
            assert(self@.take(self@.len() as int) =~= self@);
        }
        out
    }

    /// A path with the same segments.
    pub fn copy(&self) -> (r: VfsPath)
        ensures
            r@ == self@,
    {
        proof {
            use_type_invariant(self);
        }
        VfsPath(clone_texts(&self.0))
    }

    /// Whether two paths have the same segments.
    pub fn same_as(&self, other: &VfsPath) -> (r: bool)
        ensures
            r == (self@ == other@),
    {
        if self.0.len() != other.0.len() {
            proof {
                assert(self@.len() != other@.len());
            }
            return false;
        }
        self.starts_with(other)
    }

    /// Whether the segments of `prefix` are the first segments of this path.
    pub fn starts_with(&self, prefix: &VfsPath) -> (r: bool)
        ensures
            r == prefix@.is_prefix_of(self@),
            self@.len() == prefix@.len() ==> r == (self@ == prefix@),
    {
        if prefix.0.len() > self.0.len() {
            return false;
        }
        let mut i: usize = 0;
        while i < prefix.0.len()
            invariant
                i <= prefix.0.len() <= self.0.len(),
                forall|j: int| 0 <= j < i ==> prefix@[j] == self@[j],
            decreases prefix.0.len() - i,
        {
            if !same_text(self.0[i].as_str(), prefix.0[i].as_str()) {
                proof {
                    assert(prefix@[i as int] != self@[i as int]);
                    assert(self@.subrange(0, prefix@.len() as int)[i as int] == self@[i as int]);
                }
                return false;
            }
            i = i + 1;
        }
        proof {
            assert(prefix@ =~= self@.subrange(0, prefix@.len() as int));
            if self@.len() == prefix@.len() {
                assert(self@ =~= prefix@);
            }
        }
        true
    }
}

impl Clone for VfsPath {
    fn clone(&self) -> (r: Self)
        ensures
            r@ == self@,
    {
        self.copy()
    }
}

/// Whether a text names one entry of a directory.
fn is_segment(s: &str) -> (r: bool)
    ensures
        r == valid_segment(s@),
{
    !(is_empty_text(s) || same_text(s, ".") || same_text(s, "..") || has_char(s, '/'))
}

/// Once a `..` has left the root, no later piece brings the path back.
proof fn lemma_escape_persists(pieces: Seq<Seq<char>>, n: int)
    requires
        0 <= n <= pieces.len(),
        canonicalized(pieces.take(n)) is None,
    ensures
        canonicalized(pieces) is None,
    decreases pieces.len() - n,
{
    if n < pieces.len() {
        assert(pieces.take(n + 1).drop_last() =~= pieces.take(n));
        lemma_escape_persists(pieces, n + 1);
    } else {
        assert(pieces.take(n) =~= pieces);
    }
}

/// A piece without the separator, set off by one, becomes one more piece.
pub proof fn lemma_split_append(s: Seq<char>, t: Seq<char>)
    requires
        !t.contains('/'),
    ensures
        crate::text::split_on(s + (seq!['/'] + t), '/') == crate::text::split_on(s, '/').push(t),
    decreases t.len(),
{
    let whole = s + (seq!['/'] + t);
    if t.len() == 0 {
        assert(whole.drop_last() =~= s);
        assert(t =~= Seq::<char>::empty());
    } else {
        assert(t.contains(t.last()));
        assert forall|i: int| 0 <= i < t.len() - 1 implies t.drop_last()[i] != '/' by {
            assert(t.contains(t[i]));
        }
        lemma_split_append(s, t.drop_last());
        assert(whole.drop_last() =~= s + (seq!['/'] + t.drop_last()));
        let before = crate::text::split_on(s, '/').push(t.drop_last());
        assert(before.drop_last() =~= crate::text::split_on(s, '/'));
        assert(t.drop_last().push(t.last()) =~= t);
    }
}

/// Splitting the text of canonical segments gives them back.
pub proof fn lemma_split_slashed(segs: Seq<Seq<char>>)
    requires
        canonical(segs),
    ensures
        crate::text::split_on(slashed(segs), '/') == seq![Seq::<char>::empty()] + segs,
    decreases segs.len(),
{
    if segs.len() == 0 {
        assert(seq![Seq::<char>::empty()] + segs =~= seq![Seq::<char>::empty()]);
    } else {
        lemma_split_slashed(segs.drop_last());
        assert(valid_segment(segs[segs.len() - 1]));
        lemma_split_append(slashed(segs.drop_last()), segs.last());
        assert((seq![Seq::<char>::empty()] + segs.drop_last()).push(segs.last()) =~= seq![
            Seq::<char>::empty(),
        ] + segs);
    }
}

proof fn lemma_canonical_unchanged(segs: Seq<Seq<char>>)
    requires
        canonical(segs),
    ensures
        canonicalized(seq![Seq::<char>::empty()] + segs) == Some(segs),
    decreases segs.len(),
{
    let pieces = seq![Seq::<char>::empty()] + segs;
    if segs.len() == 0 {
        reveal_with_fuel(canonicalized, 2);
        assert(pieces.drop_last() =~= Seq::<Seq<char>>::empty());
        assert(segs =~= Seq::<Seq<char>>::empty());
    } else {
        lemma_canonical_unchanged(segs.drop_last());
        assert(pieces.drop_last() =~= seq![Seq::<char>::empty()] + segs.drop_last());
        assert(valid_segment(segs[segs.len() - 1]));
        assert(segs.drop_last().push(segs.last()) =~= segs);
    }
}

/// The text of a canonical path parses back to that path.
pub proof fn lemma_display_round_trip(segs: Seq<Seq<char>>)
    requires
        canonical(segs),
    ensures
        parsed(displayed(segs)) == Some(segs),
{
    if segs.len() == 0 {
        let s = seq!['/'];
        assert(s.drop_last() =~= Seq::<char>::empty());
        let pieces = crate::text::split_on(s, '/');
        reveal_with_fuel(crate::text::split_on, 2);
        assert(pieces =~= seq![Seq::<char>::empty(), Seq::<char>::empty()]);
        assert(pieces.drop_last() =~= seq![Seq::<char>::empty()] + segs);
        lemma_canonical_unchanged(segs);
    } else {
        lemma_split_slashed(segs);
        lemma_canonical_unchanged(segs);
    }
}

/// Whatever text a path is parsed from, the result has only valid segments:
/// no `..` survives to climb above the root.
pub proof fn lemma_parsed_canonical(s: Seq<char>)
    ensures
        parsed(s) matches Some(segs) ==> canonical(segs),
{
    crate::text::lemma_split_on(s, '/');
    lemma_canonicalized(crate::text::split_on(s, '/'));
}

proof fn lemma_canonicalized(pieces: Seq<Seq<char>>)
    requires
        forall|i: int| 0 <= i < pieces.len() ==> !(#[trigger] pieces[i]).contains('/'),
    ensures
        canonicalized(pieces) matches Some(segs) ==> canonical(segs),
    decreases pieces.len(),
{
    if pieces.len() > 0 {
        assert(!pieces[pieces.len() - 1].contains('/'));
        assert forall|i: int| 0 <= i < pieces.len() - 1 implies !(
        #[trigger] pieces.drop_last()[i]).contains('/') by {
            assert(!pieces[i].contains('/'));
        }
        lemma_canonicalized(pieces.drop_last());
    }
}

/// Parsing the text of a parsed path changes nothing.
pub proof fn lemma_parse_idempotent(s: Seq<char>)
    ensures
        parsed(s) matches Some(segs) ==> parsed(displayed(segs)) == Some(segs),
{
    lemma_parsed_canonical(s);
    if let Some(segs) = parsed(s) {
        lemma_display_round_trip(segs);
    }
}

/// Opaque capability identifier. The filesystem itself only carries it.
#[derive(Clone, Copy, Debug, PartialEq, Eq, Hash, Structural)]
pub struct CapabilityId(pub u64);

#[derive(Clone, Debug)]
pub struct Capability {
    id: CapabilityId,
}

impl View for Capability {
    type V = u64;

    closed spec fn view(&self) -> u64 {
        self.id.0
    }
}

impl Capability {
    pub fn new(id: u64) -> (r: Self)
        ensures
            r@ == id,
    {
        Capability { id: CapabilityId(id) }
    }

    pub fn root() -> (r: Self)
        ensures
            r@ == 0,
    {
        Capability::new(0)
    }

    pub fn id(&self) -> (r: CapabilityId)
        ensures
            r.0 == self@,
    {
        self.id
    }
}

} // verus!
