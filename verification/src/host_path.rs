//! Host paths as text, with slashes between their components.

use vstd::prelude::*;

use crate::order::text_before;
use crate::text::{
    begins_with_char, cat, cat3, chars_of, is_empty_text, join_texts, owned, same_text, split_text,
};

verus! {

/// The pieces that are components of their own, wherever they stand: not
/// empty and not `.`.
pub open spec fn inner(pieces: Seq<Seq<char>>) -> Seq<Seq<char>>
    decreases pieces.len(),
{
    if pieces.len() == 0 {
        Seq::empty()
    } else {
        let before = inner(pieces.drop_last());
        if pieces.last().len() == 0 || pieces.last() == "."@ {
            before
        } else {
            before.push(pieces.last())
        }
    }
}

pub open spec fn is_rooted(p: Seq<char>) -> bool {
    p.len() > 0 && p[0] == '/'
}

/// The components of a path: `/` first where it is absolute, `.` only where
/// the path begins with it, and every other piece between slashes that is not
/// empty or `.`.
pub open spec fn path_parts(p: Seq<char>) -> Seq<Seq<char>> {
    let pieces = crate::text::split_on(p, '/');
    let lead = if is_rooted(p) {
        seq!["/"@]
    } else if pieces[0] == "."@ {
        seq!["."@]
    } else {
        Seq::empty()
    };
    lead + inner(pieces)
}

/// A component that names an entry.
pub open spec fn is_normal(part: Seq<char>) -> bool {
    part != "/"@ && part != "."@ && part != ".."@
}

/// The components left after `.` has been dropped and `..` has taken the
/// entry before it away. At the root, or with nothing before it, `..` does
/// nothing.
pub open spec fn resolved(parts: Seq<Seq<char>>) -> Seq<Seq<char>>
    decreases parts.len(),
{
    if parts.len() == 0 {
        Seq::empty()
    } else {
        let out = resolved(parts.drop_last());
        let part = parts.last();
        if part == "."@ {
            out
        } else if part == ".."@ {
            if out.len() == 0 || out.last() == "/"@ {
                out
            } else {
                out.drop_last()
            }
        } else {
            out.push(part)
        }
    }
}

/// The text of a path with the given components.
pub open spec fn rendered(parts: Seq<Seq<char>>) -> Seq<char> {
    if parts.len() > 0 && parts[0] == "/"@ {
        "/"@ + crate::text::joined_with(parts.skip(1), "/"@)
    } else {
        crate::text::joined_with(parts, "/"@)
    }
}

/// The components of the lexical normal form of a path.
pub open spec fn normal_parts(p: Seq<char>) -> Seq<Seq<char>> {
    resolved(path_parts(p))
}

/// The lexical normal form of a path.
pub open spec fn normalized(p: Seq<char>) -> Seq<char> {
    rendered(normal_parts(p))
}

/// `p` taken relative to `base`; an absolute `p` stands for itself.
pub open spec fn joined(base: Seq<char>, p: Seq<char>) -> Seq<char> {
    if is_rooted(p) {
        p
    } else if base.len() == 0 || base.last() == '/' {
        base + p
    } else {
        base + "/"@ + p
    }
}

/// `prefix` is `p` or one of the directories above it, component by
/// component.
pub open spec fn is_under(p: Seq<char>, prefix: Seq<char>) -> bool {
    path_parts(prefix).is_prefix_of(path_parts(p))
}

/// The last component, where it names an entry.
pub open spec fn name_of(p: Seq<char>) -> Option<Seq<char>> {
    let parts = path_parts(p);
    if parts.len() > 0 && is_normal(parts.last()) {
        Some(parts.last())
    } else {
        None
    }
}

/// Where a path of a task points: an absolute path to itself, any other one
/// into the working directory.
pub open spec fn task_path(workdir: Seq<char>, p: Seq<char>) -> Seq<char> {
    if is_rooted(p) {
        normalized(p)
    } else {
        normalized(joined(workdir, p))
    }
}

/// The order of components: the root, `.`, `..`, then entries by name.
pub open spec fn part_rank(part: Seq<char>) -> int {
    if part == "/"@ {
        0
    } else if part == "."@ {
        1
    } else if part == ".."@ {
        2
    } else {
        3
    }
}

pub open spec fn part_lt(a: Seq<char>, b: Seq<char>) -> bool {
    if part_rank(a) != part_rank(b) {
        part_rank(a) < part_rank(b)
    } else {
        part_rank(a) == 3 && crate::order::text_lt(a, b)
    }
}

/// `a` comes before `b`, component by component.
pub open spec fn parts_lt(a: Seq<Seq<char>>, b: Seq<Seq<char>>) -> bool
    decreases a.len(),
{
    if b.len() == 0 {
        false
    } else if a.len() == 0 {
        true
    } else if a[0] != b[0] {
        part_lt(a[0], b[0])
    } else {
        parts_lt(a.drop_first(), b.drop_first())
    }
}

pub open spec fn path_lt(a: Seq<char>, b: Seq<char>) -> bool {
    parts_lt(path_parts(a), path_parts(b))
}

/// Components as `normalize_path` leaves them: entries, with `/` only in
/// front.
pub open spec fn is_clean(parts: Seq<Seq<char>>) -> bool {
    forall|i: int|
        0 <= i < parts.len() ==> crate::vfs_path::valid_segment(#[trigger] parts[i]) || (i == 0
            && parts[i] == "/"@)
}

/// Whether a path is absolute.
pub fn is_absolute(p: &str) -> (r: bool)
    ensures
        r == is_rooted(p@),
{
    begins_with_char(p, '/')
}

/// The components of a path.
pub fn components(p: &str) -> (r: Vec<String>)
    ensures
        crate::text::texts(r@) == path_parts(p@),
{
    let pieces = split_text(p, '/');
    let ghost all = crate::text::split_on(p@, '/');
    let mut r: Vec<String> = Vec::new();
    proof {
        crate::text::lemma_split_on(p@, '/');
        assert(pieces@[0]@ == all[0]);
    }
    if is_absolute(p) {
        r.push(owned("/"));
    } else if same_text(pieces[0].as_str(), ".") {
        r.push(owned("."));
    }
    let ghost lead = crate::text::texts(r@);
    let mut i: usize = 0;
    proof {
        assert(lead =~= (if is_rooted(p@) {
            seq!["/"@]
        } else if all[0] == "."@ {
            seq!["."@]
        } else {
            Seq::empty()
        }));
        assert(lead + inner(all.take(0)) =~= lead);
    }
    while i < pieces.len()
        invariant
            i <= pieces.len(),
            crate::text::texts(pieces@) == all,
            crate::text::texts(r@) == lead + inner(all.take(i as int)),
        decreases pieces.len() - i,
    {
        let ghost before = crate::text::texts(r@);
        proof {
            assert(all.take(i + 1).drop_last() =~= all.take(i as int));
            assert(all.take(i + 1).last() == pieces@[i as int]@);
        }
        let piece = pieces[i].as_str();
        if !is_empty_text(piece) && !same_text(piece, ".") {
            r.push(owned(piece));
            proof {
                assert(crate::text::texts(r@) =~= before.push(piece@));
                assert(lead + inner(all.take(i as int)).push(piece@) =~= before.push(piece@));
            }
        }
        i = i + 1;
    }
    proof {
        assert(all.take(all.len() as int) =~= all);
    }
    r
}

/// The text of a path with the given components.
fn render(parts: &Vec<String>) -> (r: String)
    ensures
        r@ == rendered(crate::text::texts(parts@)),
{
    let ghost all = crate::text::texts(parts@);
    if parts.len() > 0 && same_text(parts[0].as_str(), "/") {
        let mut rest: Vec<String> = Vec::new();
        let mut i: usize = 1;
        while i < parts.len()
            invariant
                1 <= i <= parts.len(),
                all == crate::text::texts(parts@),
                crate::text::texts(rest@) =~= all.subrange(1, i as int),
            decreases parts.len() - i,
        {
            let ghost before = crate::text::texts(rest@);
            rest.push(owned(parts[i].as_str()));
            proof {
                assert(crate::text::texts(rest@) =~= before.push(all[i as int]));
            }
            i = i + 1;
        }
        proof {
            assert(all.subrange(1, all.len() as int) =~= all.skip(1));
        }
        let tail = join_texts(&rest, "/");
        cat("/", tail.as_str())
    } else {
        join_texts(parts, "/")
    }
}

/// The lexical normal form of a path: `.` dropped, `..` resolved against what
/// stands before it.
pub fn normalize_path(path: &str) -> (r: String)
    ensures
        r@ == normalized(path@),
{
    let parts = components(path);
    let ghost all = path_parts(path@);
    let mut out: Vec<String> = Vec::new();
    let mut i: usize = 0;
    proof {
        assert(crate::text::texts(out@) =~= Seq::<Seq<char>>::empty());
    }
    while i < parts.len()
        invariant
            i <= parts.len(),
            crate::text::texts(parts@) == all,
            crate::text::texts(out@) == resolved(all.take(i as int)),
        decreases parts.len() - i,
    {
        let ghost before = crate::text::texts(out@);
        proof {
            assert(all.take(i + 1).drop_last() =~= all.take(i as int));
            assert(all.take(i + 1).last() == parts@[i as int]@);
        }
        let part = parts[i].as_str();
        if same_text(part, ".") {
        } else if same_text(part, "..") {
            if out.len() > 0 {
                proof {
                    assert(before.last() == out@[out@.len() - 1]@);
                }
                if !same_text(out[out.len() - 1].as_str(), "/") {
                    out.pop();
                    proof {
                        assert(crate::text::texts(out@) =~= before.drop_last());
                    }
                }
            }
        } else {
            out.push(owned(part));
            proof {
                assert(crate::text::texts(out@) =~= before.push(part@));
            }
        }
        i = i + 1;
    }
    proof {
        assert(all.take(all.len() as int) =~= all);
    }
    render(&out)
}

/// `p` taken relative to `base`.
pub fn join_path(base: &str, p: &str) -> (r: String)
    ensures
        r@ == joined(base@, p@),
{
    if is_absolute(p) {
        return owned(p);
    }
    let cs = chars_of(base);
    if cs.len() == 0 || cs[cs.len() - 1] == '/' {
        cat(base, p)
    } else {
        cat3(base, "/", p)
    }
}

/// Whether the texts in `prefix` are the first ones in `v`.
fn texts_start_with(v: &Vec<String>, prefix: &Vec<String>) -> (r: bool)
    ensures
        r == crate::text::texts(prefix@).is_prefix_of(crate::text::texts(v@)),
{
    let ghost a = crate::text::texts(v@);
    let ghost b = crate::text::texts(prefix@);
    if prefix.len() > v.len() {
        return false;
    }
    let mut i: usize = 0;
    while i < prefix.len()
        invariant
            i <= prefix.len() <= v.len(),
            a == crate::text::texts(v@),
            b == crate::text::texts(prefix@),
            forall|j: int| 0 <= j < i ==> a[j] == b[j],
        decreases prefix.len() - i,
    {
        if !same_text(v[i].as_str(), prefix[i].as_str()) {
            proof {
                assert(a[i as int] != b[i as int]);
                assert(a.subrange(0, b.len() as int)[i as int] == a[i as int]);
            }
            return false;
        }
        i = i + 1;
    }
    proof {
        assert(b =~= a.subrange(0, b.len() as int));
    }
    true
}

/// Whether `prefix` is `p` or one of the directories above it.
pub fn path_starts_with(p: &str, prefix: &str) -> (r: bool)
    ensures
        r == is_under(p@, prefix@),
{
    let a = components(p);
    let b = components(prefix);
    texts_start_with(&a, &b)
}

/// Whether two paths have the same components.
pub fn same_path(a: &str, b: &str) -> (r: bool)
    ensures
        r == (path_parts(a@) == path_parts(b@)),
{
    let x = components(a);
    let y = components(b);
    if x.len() != y.len() {
        proof {
            assert(path_parts(a@).len() != path_parts(b@).len());
        }
        return false;
    }
    proof {
        assert(path_parts(a@).subrange(0, path_parts(b@).len() as int) =~= path_parts(a@));
    }
    texts_start_with(&x, &y)
}

/// The part of `p` below `prefix`, or `None` where `p` is not under it.
pub fn strip_prefix(p: &str, prefix: &str) -> (r: Option<String>)
    ensures
        match r {
            Some(rest) => is_under(p@, prefix@) && rest@ == rendered(
                path_parts(p@).skip(path_parts(prefix@).len() as int),
            ),
            None => !is_under(p@, prefix@),
        },
{
    let a = components(p);
    let b = components(prefix);
    if !texts_start_with(&a, &b) {
        return None;
    }
    let ghost all = path_parts(p@);
    let mut rest: Vec<String> = Vec::new();
    let mut i: usize = b.len();
    proof {
        assert(all.len() == a@.len());
        assert(path_parts(prefix@).len() == b@.len());
    }
    while i < a.len()
        invariant
            b@.len() <= i <= a.len(),
            all == crate::text::texts(a@),
            crate::text::texts(rest@) =~= all.subrange(b@.len() as int, i as int),
        decreases a.len() - i,
    {
        let ghost before = crate::text::texts(rest@);
        rest.push(owned(a[i].as_str()));
        proof {
            assert(crate::text::texts(rest@) =~= before.push(all[i as int]));
        }
        i = i + 1;
    }
    proof {
        assert(all.subrange(b@.len() as int, all.len() as int) =~= all.skip(b@.len() as int));
    }
    Some(render(&rest))
}

/// The last component of `p`, where it names an entry.
pub fn file_name(p: &str) -> (r: Option<String>)
    ensures
        match r {
            Some(n) => name_of(p@) == Some(n@),
            None => name_of(p@) is None,
        },
{
    let parts = components(p);
    let ghost all = path_parts(p@);
    if parts.len() == 0 {
        return None;
    }
    let last = parts[parts.len() - 1].as_str();
    proof {
        assert(all.last() == last@);
    }
    if same_text(last, "/") || same_text(last, ".") || same_text(last, "..") {
        None
    } else {
        Some(owned(last))
    }
}

/// Where a path of a task points.
pub fn resolve_task_path(workdir: &str, path: &str) -> (r: String)
    ensures
        r@ == task_path(workdir@, path@),
{
    if is_absolute(path) {
        normalize_path(path)
    } else {
        let whole = join_path(workdir, path);
        normalize_path(whole.as_str())
    }
}

/// The directories above `p`, nearest first, up to the root or, for a
/// relative path, to the empty path.
pub open spec fn dirs_above(p: Seq<char>) -> Seq<Seq<char>> {
    let parts = path_parts(p);
    let top: int = if is_rooted(p) {
        1
    } else {
        0
    };
    Seq::new(
        (parts.len() - top) as nat,
        |i: int| rendered(parts.take(parts.len() - 1 - i)),
    )
}

/// The directories above `p`, nearest first.
pub fn parent_dirs(p: &str) -> (r: Vec<String>)
    ensures
        crate::text::texts(r@) == dirs_above(p@),
{
    let mut parts = components(p);
    let ghost all = path_parts(p@);
    let top: usize = if is_absolute(p) {
        1
    } else {
        0
    };
    let mut r: Vec<String> = Vec::new();
    proof {
        lemma_parts_shape(p@);
        assert(all.len() == parts@.len());
        assert(all.take(all.len() as int) =~= all);
    }
    while parts.len() > top
        invariant
            top <= parts@.len() <= all.len(),
            crate::text::texts(parts@) == all.take(parts@.len() as int),
            r@.len() == all.len() - parts@.len(),
            forall|i: int|
                0 <= i < r@.len() ==> r@[i]@ == rendered(#[trigger] all.take(all.len() - 1 - i)),
        decreases parts.len(),
    {
        let ghost n = parts@.len() as int;
        let ghost before = crate::text::texts(parts@);
        parts.pop();
        proof {
            assert(crate::text::texts(parts@) =~= before.drop_last());
            assert(all.take(n).drop_last() =~= all.take(n - 1));
        }
        r.push(render(&parts));
    }
    proof {
        assert(crate::text::texts(r@) =~= dirs_above(p@));
    }
    r
}

fn rank_of(part: &str) -> (r: u8)
    ensures
        r == part_rank(part@),
{
    if same_text(part, "/") {
        0
    } else if same_text(part, ".") {
        1
    } else if same_text(part, "..") {
        2
    } else {
        3
    }
}

/// Whether `a` comes before `b`, component by component.
pub fn path_before(a: &str, b: &str) -> (r: bool)
    ensures
        r == path_lt(a@, b@),
{
    let x = components(a);
    let y = components(b);
    let ghost xs = path_parts(a@);
    let ghost ys = path_parts(b@);
    let mut i: usize = 0;
    proof {
        assert(xs.skip(0) =~= xs);
        assert(ys.skip(0) =~= ys);
    }
    while i < x.len() && i < y.len()
        invariant
            i <= x.len(),
            i <= y.len(),
            xs == path_parts(a@),
            ys == path_parts(b@),
            crate::text::texts(x@) == xs,
            crate::text::texts(y@) == ys,
            parts_lt(xs, ys) == parts_lt(xs.skip(i as int), ys.skip(i as int)),
        decreases x.len() - i,
    {
        let p = x[i].as_str();
        let q = y[i].as_str();
        proof {
            assert(xs.skip(i as int)[0] == p@);
            assert(ys.skip(i as int)[0] == q@);
        }
        if !same_text(p, q) {
            let m: u8 = rank_of(p);
            let n: u8 = rank_of(q);
            if m != n {
                return m < n;
            }
            return m == 3 && text_before(p, q);
        }
        proof {
            assert(xs.skip(i as int).drop_first() =~= xs.skip(i + 1));
            assert(ys.skip(i as int).drop_first() =~= ys.skip(i + 1));
        }
        i = i + 1;
    }
    y.len() > i
}

/// Splitting two texts set off by a slash splits each of them.
proof fn lemma_split_concat(a: Seq<char>, b: Seq<char>)
    ensures
        crate::text::split_on(a + "/"@ + b, '/') == crate::text::split_on(a, '/')
            + crate::text::split_on(b, '/'),
    decreases b.len(),
{
    reveal_strlit("/");
    let whole = a + "/"@ + b;
    let left = crate::text::split_on(a, '/');
    crate::text::lemma_split_on(b, '/');
    if b.len() == 0 {
        assert(whole.drop_last() =~= a);
        assert(left + crate::text::split_on(b, '/') =~= left.push(Seq::<char>::empty()));
    } else {
        lemma_split_concat(a, b.drop_last());
        crate::text::lemma_split_on(b.drop_last(), '/');
        assert(whole.drop_last() =~= a + "/"@ + b.drop_last());
        let right = crate::text::split_on(b.drop_last(), '/');
        assert((left + right).last() == right.last());
        assert((left + right).drop_last() =~= left + right.drop_last());
        assert(left + crate::text::split_on(b, '/') =~= crate::text::split_on(whole, '/'));
    }
}

proof fn lemma_inner_concat(a: Seq<Seq<char>>, b: Seq<Seq<char>>)
    ensures
        inner(a + b) == inner(a) + inner(b),
    decreases b.len(),
{
    if b.len() == 0 {
        assert(a + b =~= a);
        assert(inner(a) + inner(b) =~= inner(a));
    } else {
        lemma_inner_concat(a, b.drop_last());
        assert((a + b).drop_last() =~= a + b.drop_last());
        assert(inner(a) + inner(b) =~= inner(a + b));
    }
}

proof fn lemma_inner_valid(segs: Seq<Seq<char>>)
    requires
        crate::vfs_path::canonical(segs),
    ensures
        inner(segs) == segs,
    decreases segs.len(),
{
    if segs.len() > 0 {
        assert(crate::vfs_path::valid_segment(segs[segs.len() - 1]));
        assert forall|i: int| 0 <= i < segs.len() - 1 implies crate::vfs_path::valid_segment(
            #[trigger] segs.drop_last()[i],
        ) by {
            assert(crate::vfs_path::valid_segment(segs[i]));
        }
        lemma_inner_valid(segs.drop_last());
        assert(segs.drop_last().push(segs.last()) =~= segs);
    } else {
        assert(segs =~= Seq::<Seq<char>>::empty());
    }
}

proof fn lemma_split_joined(segs: Seq<Seq<char>>)
    requires
        crate::vfs_path::canonical(segs),
        segs.len() > 0,
    ensures
        crate::text::split_on(crate::text::joined_with(segs, "/"@), '/') == segs,
    decreases segs.len(),
{
    reveal_strlit("/");
    let whole = crate::text::joined_with(segs, "/"@);
    assert(crate::vfs_path::valid_segment(segs[segs.len() - 1]));
    if segs.len() == 1 {
        lemma_split_plain(segs[0]);
        assert(segs =~= seq![segs[0]]);
    } else {
        assert forall|i: int| 0 <= i < segs.len() - 1 implies crate::vfs_path::valid_segment(
            #[trigger] segs.drop_last()[i],
        ) by {
            assert(crate::vfs_path::valid_segment(segs[i]));
        }
        lemma_split_joined(segs.drop_last());
        let head = crate::text::joined_with(segs.drop_last(), "/"@);
        assert(whole =~= head + "/"@ + segs.last());
        lemma_split_concat(head, segs.last());
        lemma_split_plain(segs.last());
        assert(segs.drop_last() + seq![segs.last()] =~= segs);
    }
}

proof fn lemma_split_plain(s: Seq<char>)
    requires
        !s.contains('/'),
    ensures
        crate::text::split_on(s, '/') == seq![s],
    decreases s.len(),
{
    if s.len() > 0 {
        assert(s.contains(s.last()));
        assert forall|i: int| 0 <= i < s.len() - 1 implies s.drop_last()[i] != '/' by {
            assert(s.contains(s[i]));
        }
        lemma_split_plain(s.drop_last());
        assert(s.drop_last().push(s.last()) =~= s);
        assert(seq![s.drop_last()].drop_last().push(s) =~= seq![s]);
    } else {
        assert(s =~= Seq::<char>::empty());
    }
}

/// Clean components are the components of their own text.
pub proof fn lemma_parts_of_rendered(parts: Seq<Seq<char>>)
    requires
        is_clean(parts),
    ensures
        path_parts(rendered(parts)) == parts,
{
    reveal_strlit("/");
    reveal_strlit(".");
    let text = rendered(parts);
    if parts.len() > 0 && parts[0] == "/"@ {
        let rest = parts.skip(1);
        assert forall|i: int| 0 <= i < rest.len() implies crate::vfs_path::valid_segment(
            #[trigger] rest[i],
        ) by {
            assert(rest[i] == parts[i + 1]);
        }
        let tail = crate::text::joined_with(rest, "/"@);
        assert(text =~= Seq::<char>::empty() + "/"@ + tail);
        lemma_split_concat(Seq::<char>::empty(), tail);
        let none = seq![Seq::<char>::empty()];
        assert(crate::text::split_on(Seq::<char>::empty(), '/') =~= none);
        lemma_inner_concat(none, crate::text::split_on(tail, '/'));
        assert(none.drop_last() =~= Seq::<Seq<char>>::empty());
        reveal_with_fuel(inner, 2);
        assert(inner(none) =~= Seq::<Seq<char>>::empty());
        if rest.len() == 0 {
            assert(tail =~= Seq::<char>::empty());
        } else {
            lemma_split_joined(rest);
            lemma_inner_valid(rest);
        }
        assert(inner(crate::text::split_on(tail, '/')) =~= rest);
        assert(seq!["/"@] + (inner(none) + rest) =~= parts);
    } else {
        assert forall|i: int| 0 <= i < parts.len() implies crate::vfs_path::valid_segment(
            #[trigger] parts[i],
        ) by {}
        if parts.len() == 0 {
            assert(text =~= Seq::<char>::empty());
            let none = seq![Seq::<char>::empty()];
            assert(crate::text::split_on(text, '/') =~= none);
            reveal_with_fuel(inner, 2);
            assert(none.drop_last() =~= Seq::<Seq<char>>::empty());
            assert(none[0].len() == 0);
            assert(path_parts(text) =~= parts);
        } else {
            lemma_split_joined(parts);
            lemma_inner_valid(parts);
            assert(crate::vfs_path::valid_segment(parts[0]));
            lemma_joined_first(parts);
            assert(parts[0].contains(parts[0][0]));
            assert(!is_rooted(text));
            assert(path_parts(text) =~= parts);
        }
    }
}

/// A text of segments begins as its first segment does.
pub proof fn lemma_joined_first(segs: Seq<Seq<char>>)
    requires
        segs.len() > 0,
        segs[0].len() > 0,
    ensures
        crate::text::joined_with(segs, "/"@).len() > 0,
        crate::text::joined_with(segs, "/"@)[0] == segs[0][0],
    decreases segs.len(),
{
    if segs.len() > 1 {
        lemma_joined_first(segs.drop_last());
    }
}

/// Resolving leaves clean components, as long as `/` stands only in front and
/// no component holds another slash.
proof fn lemma_resolved_clean(parts: Seq<Seq<char>>)
    requires
        forall|i: int|
            0 <= i < parts.len() ==> (#[trigger] parts[i]).len() > 0 && (!parts[i].contains('/') || (
            i == 0 && parts[i] == "/"@)),
    ensures
        is_clean(resolved(parts)),
        parts.len() > 0 && parts[0] == "/"@ ==> resolved(parts).len() > 0 && resolved(parts)[0]
            == "/"@,
        resolved(parts).len() > 0 && resolved(parts)[0] == "/"@ ==> parts.len() > 0 && parts[0]
            == "/"@,
    decreases parts.len(),
{
    reveal_strlit("/");
    reveal_strlit(".");
    reveal_strlit("..");
    if parts.len() > 0 {
        let head = parts.drop_last();
        assert forall|i: int| 0 <= i < head.len() implies (#[trigger] head[i]).len() > 0 && (
        !head[i].contains('/') || (i == 0 && head[i] == "/"@)) by {
            assert(head[i] == parts[i]);
        }
        lemma_resolved_clean(head);
        let out = resolved(head);
        let part = parts[parts.len() - 1];
        assert(part.len() > 0);
        if part == "/"@ {
            assert("/"@.contains('/')) by {
                assert("/"@[0] == '/');
            }
            assert(parts.len() == 1);
            assert(head =~= Seq::<Seq<char>>::empty());
        }
        if head.len() == 0 {
            assert(out =~= Seq::<Seq<char>>::empty());
        } else {
            assert(head[0] == parts[0]);
        }
        if part == ".."@ && out.len() > 0 && out.last() != "/"@ {
            assert(out.len() == 1 ==> out[0] != "/"@);
        }
        if part != "."@ && part != ".."@ {
            let next = out.push(part);
            assert forall|i: int| 0 <= i < next.len() implies crate::vfs_path::valid_segment(
                #[trigger] next[i],
            ) || (i == 0 && next[i] == "/"@) by {
                if i < out.len() {
                    assert(next[i] == out[i]);
                }
            }
        }
    }
}

proof fn lemma_inner_of_split(pieces: Seq<Seq<char>>)
    requires
        forall|i: int| 0 <= i < pieces.len() ==> !(#[trigger] pieces[i]).contains('/'),
    ensures
        forall|i: int|
            0 <= i < inner(pieces).len() ==> (#[trigger] inner(pieces)[i]).len() > 0
                && !inner(pieces)[i].contains('/') && inner(pieces)[i] != "."@,
    decreases pieces.len(),
{
    if pieces.len() > 0 {
        assert(!pieces[pieces.len() - 1].contains('/'));
        assert forall|i: int| 0 <= i < pieces.len() - 1 implies !(
        #[trigger] pieces.drop_last()[i]).contains('/') by {
            assert(!pieces[i].contains('/'));
        }
        lemma_inner_of_split(pieces.drop_last());
        let before = inner(pieces.drop_last());
        assert forall|i: int| 0 <= i < inner(pieces).len() implies (
        #[trigger] inner(pieces)[i]).len() > 0 && !inner(pieces)[i].contains('/') && inner(
            pieces,
        )[i] != "."@ by {
            if i < before.len() {
                assert(inner(pieces)[i] == before[i]);
            }
        }
    }
}

/// What every component of a path looks like.
pub proof fn lemma_parts_shape(p: Seq<char>)
    ensures
        forall|i: int|
            0 <= i < path_parts(p).len() ==> (#[trigger] path_parts(p)[i]).len() > 0 && (
            !path_parts(p)[i].contains('/') || (i == 0 && path_parts(p)[i] == "/"@)),
        is_rooted(p) <==> path_parts(p).len() > 0 && path_parts(p)[0] == "/"@,
{
    reveal_strlit("/");
    reveal_strlit(".");
    let pieces = crate::text::split_on(p, '/');
    crate::text::lemma_split_on(p, '/');
    lemma_inner_of_split(pieces);
    let parts = path_parts(p);
    let kept = inner(pieces);
    let lead = (parts.len() - kept.len()) as int;
    assert("/"@[0] == '/');
    assert forall|i: int| 0 <= i < parts.len() implies (#[trigger] parts[i]).len() > 0 && (
    !parts[i].contains('/') || (i == 0 && parts[i] == "/"@)) by {
        if i >= lead {
            assert(parts[i] == kept[i - lead]);
        } else if !is_rooted(p) {
            assert(parts[i] == "."@);
        }
    }
    if !is_rooted(p) && parts.len() > 0 {
        if lead == 0 {
            assert(parts[0] == kept[0]);
        } else {
            assert(parts[0] == "."@);
            assert("."@[0] == '.');
        }
        if parts[0] == "/"@ {
            assert(parts[0].contains('/')) by {
                assert(parts[0][0] == '/');
            }
        }
    }
}

/// The components of a normal form are the resolved components.
pub proof fn lemma_normalized_parts(p: Seq<char>)
    ensures
        is_clean(normal_parts(p)),
        path_parts(normalized(p)) == normal_parts(p),
        is_rooted(normalized(p)) == is_rooted(p),
{
    lemma_parts_shape(p);
    lemma_resolved_clean(path_parts(p));
    lemma_parts_of_rendered(normal_parts(p));
    lemma_parts_shape(normalized(p));
}

proof fn lemma_resolved_of_clean(parts: Seq<Seq<char>>)
    requires
        is_clean(parts),
    ensures
        resolved(parts) == parts,
    decreases parts.len(),
{
    reveal_strlit("/");
    reveal_strlit(".");
    reveal_strlit("..");
    if parts.len() > 0 {
        let head = parts.drop_last();
        assert forall|i: int| 0 <= i < head.len() implies crate::vfs_path::valid_segment(
            #[trigger] head[i],
        ) || (i == 0 && head[i] == "/"@) by {
            assert(head[i] == parts[i]);
        }
        lemma_resolved_of_clean(head);
        let last = parts[parts.len() - 1];
        assert(crate::vfs_path::valid_segment(last) || last == "/"@);
        assert("/"@[0] == '/' && "."@[0] == '.' && ".."@[0] == '.');
        assert(parts.last() != "."@ && parts.last() != ".."@);
        assert(head.push(parts.last()) =~= parts);
    } else {
        assert(parts =~= Seq::<Seq<char>>::empty());
    }
}

/// A normal form is its own normal form.
pub proof fn lemma_normalize_idempotent(p: Seq<char>)
    ensures
        normalized(normalized(p)) == normalized(p),
{
    lemma_normalized_parts(p);
    lemma_resolved_of_clean(normal_parts(p));
}

/// The empty path has no components.
pub proof fn lemma_empty_has_no_parts()
    ensures
        path_parts(Seq::<char>::empty()) == Seq::<Seq<char>>::empty(),
{
    reveal_strlit(".");
    let none = seq![Seq::<char>::empty()];
    assert(crate::text::split_on(Seq::<char>::empty(), '/') =~= none);
    reveal_with_fuel(inner, 2);
    assert(none.drop_last() =~= Seq::<Seq<char>>::empty());
    assert(path_parts(Seq::<char>::empty()) =~= Seq::<Seq<char>>::empty());
}

/// A segment is a path of one component.
pub proof fn lemma_segment_parts(name: Seq<char>)
    requires
        crate::vfs_path::valid_segment(name),
    ensures
        !is_rooted(name),
        path_parts(name) == seq![name],
{
    reveal_strlit("/");
    reveal_strlit("..");
    let parts = seq![name];
    assert(name != "/"@) by {
        assert("/"@[0] == '/');
    }
    lemma_parts_of_rendered(parts);
    reveal_with_fuel(crate::text::joined_with, 2);
    assert(rendered(parts) =~= name);
}

/// A path that begins with neither `/` nor `.` has no other components than
/// the pieces between its slashes.
pub proof fn lemma_plain_parts(p: Seq<char>)
    requires
        !is_rooted(p),
        path_parts(p).len() > 0 ==> path_parts(p)[0] != "."@,
    ensures
        path_parts(p) == inner(crate::text::split_on(p, '/')),
{
    let pieces = crate::text::split_on(p, '/');
    if pieces[0] == "."@ {
        assert(path_parts(p)[0] == "."@);
    }
    assert(path_parts(p) =~= inner(pieces));
}

/// Joining appends the components of the path to those of the base.
pub proof fn lemma_joined_parts(base: Seq<char>, p: Seq<char>)
    requires
        base.len() > 0,
        !is_rooted(p),
    ensures
        path_parts(joined(base, p)) == path_parts(base) + inner(crate::text::split_on(p, '/')),
{
    reveal_strlit("/");
    reveal_strlit(".");
    let whole = joined(base, p);
    let low = crate::text::split_on(p, '/');
    let high = crate::text::split_on(base, '/');
    crate::text::lemma_split_on(p, '/');
    crate::text::lemma_split_on(base, '/');
    assert("/"@ =~= seq!['/']);
    if base.last() == '/' {
        let cut = base.drop_last();
        assert(base =~= cut + "/"@ + Seq::<char>::empty());
        lemma_split_concat(cut, Seq::<char>::empty());
        lemma_split_concat(cut, p);
        assert(whole =~= cut + "/"@ + p);
        let none = seq![Seq::<char>::empty()];
        assert(crate::text::split_on(Seq::<char>::empty(), '/') =~= none);
        lemma_inner_concat(crate::text::split_on(cut, '/'), none);
        lemma_inner_concat(crate::text::split_on(cut, '/'), low);
        reveal_with_fuel(inner, 2);
        assert(none.drop_last() =~= Seq::<Seq<char>>::empty());
        assert(inner(none) =~= Seq::<Seq<char>>::empty());
        assert(inner(high) =~= inner(crate::text::split_on(cut, '/')));
        crate::text::lemma_split_on(cut, '/');
        assert(crate::text::split_on(whole, '/')[0] == high[0]);
    } else {
        assert(whole =~= base + "/"@ + p);
        lemma_split_concat(base, p);
        lemma_inner_concat(high, low);
        assert(crate::text::split_on(whole, '/')[0] == high[0]);
    }
    assert(is_rooted(whole) == is_rooted(base));
    assert(path_parts(whole) =~= path_parts(base) + inner(low));
}

/// A path without `..` and without a leading slash, taken relative to a
/// directory, stays below it.
pub proof fn lemma_join_stays_below(base: Seq<char>, p: Seq<char>)
    requires
        !is_rooted(p),
        forall|i: int| 0 <= i < path_parts(p).len() ==> #[trigger] path_parts(p)[i] != ".."@,
    ensures
        normal_parts(base).is_prefix_of(normal_parts(joined(base, p))),
        is_under(normalized(joined(base, p)), normalized(base)),
{
    reveal_strlit("/");
    reveal_strlit(".");
    reveal_strlit("..");
    let whole = joined(base, p);
    let low = crate::text::split_on(p, '/');
    lemma_no_parent_in_inner(p);
    if base.len() == 0 {
        assert(whole =~= p);
        assert(base =~= Seq::<char>::empty());
        lemma_empty_has_no_parts();
        assert(normal_parts(base) =~= Seq::<Seq<char>>::empty());
        assert(normal_parts(base) =~= normal_parts(whole).subrange(0, 0));
    } else {
        lemma_joined_parts(base, p);
        lemma_resolved_appends(path_parts(base), inner(low));
        assert(normal_parts(base) =~= normal_parts(whole).subrange(
            0,
            normal_parts(base).len() as int,
        ));
    }
    lemma_normalized_parts(base);
    lemma_normalized_parts(whole);
}

proof fn lemma_no_parent_in_inner(p: Seq<char>)
    requires
        forall|i: int| 0 <= i < path_parts(p).len() ==> #[trigger] path_parts(p)[i] != ".."@,
    ensures
        forall|i: int|
            0 <= i < inner(crate::text::split_on(p, '/')).len() ==> #[trigger] inner(
                crate::text::split_on(p, '/'),
            )[i] != ".."@,
{
    let kept = inner(crate::text::split_on(p, '/'));
    let lead = (path_parts(p).len() - kept.len()) as int;
    assert forall|i: int| 0 <= i < kept.len() implies #[trigger] kept[i] != ".."@ by {
        assert(path_parts(p)[lead + i] == kept[i]);
    }
}

proof fn lemma_resolved_appends(a: Seq<Seq<char>>, b: Seq<Seq<char>>)
    requires
        forall|i: int| 0 <= i < b.len() ==> #[trigger] b[i] != ".."@,
    ensures
        resolved(a).is_prefix_of(resolved(a + b)),
    decreases b.len(),
{
    if b.len() == 0 {
        assert(a + b =~= a);
        assert(resolved(a) =~= resolved(a).subrange(0, resolved(a).len() as int));
    } else {
        assert forall|i: int| 0 <= i < b.len() - 1 implies #[trigger] b.drop_last()[i] != ".."@ by {
            assert(b[i] != ".."@);
        }
        lemma_resolved_appends(a, b.drop_last());
        assert((a + b).drop_last() =~= a + b.drop_last());
        assert((a + b).last() == b[b.len() - 1]);
        assert(resolved(a) =~= resolved(a + b).subrange(0, resolved(a).len() as int));
    }
}

proof fn lemma_resolved_names(a: Seq<Seq<char>>, b: Seq<Seq<char>>)
    requires
        crate::vfs_path::canonical(b),
    ensures
        resolved(a + b) == resolved(a) + b,
    decreases b.len(),
{
    if b.len() == 0 {
        assert(a + b =~= a);
        assert(resolved(a) + b =~= resolved(a));
    } else {
        let less = b.drop_last();
        assert forall|i: int| 0 <= i < less.len() implies crate::vfs_path::valid_segment(
            #[trigger] less[i],
        ) by {
            assert(less[i] == b[i]);
        }
        lemma_resolved_names(a, less);
        assert((a + b).drop_last() =~= a + less);
        assert(crate::vfs_path::valid_segment(b[b.len() - 1]));
        assert(resolved(a) + b =~= (resolved(a) + less).push(b.last()));
    }
}

/// Names of entries behind a path are behind its normal form, whatever it is.
pub proof fn lemma_names_append(base: Seq<char>, p: Seq<char>, names: Seq<Seq<char>>)
    requires
        names.len() > 0,
        crate::vfs_path::canonical(names),
        path_parts(p) == names,
        !is_rooted(p),
    ensures
        path_parts(normalized(joined(base, p))) == path_parts(normalized(base)) + names,
{
    reveal_strlit(".");
    let whole = joined(base, p);
    assert(crate::vfs_path::valid_segment(names[0]));
    lemma_plain_parts(p);
    if base.len() == 0 {
        assert(whole =~= p);
        assert(base =~= Seq::<char>::empty());
        lemma_empty_has_no_parts();
        let none = Seq::<Seq<char>>::empty();
        lemma_resolved_names(none, names);
        assert(none + names =~= names);
        assert(resolved(none) + names =~= names);
    } else {
        lemma_joined_parts(base, p);
        lemma_resolved_names(path_parts(base), names);
    }
    lemma_normalized_parts(base);
    lemma_normalized_parts(whole);
}

/// `..` takes the name before it away, and `.` says nothing.
pub proof fn lemma_dots_resolve(a: Seq<Seq<char>>, name: Seq<char>)
    requires
        crate::vfs_path::valid_segment(name),
    ensures
        resolved(a.push(name).push(".."@)) == resolved(a),
        resolved(a.push("."@)) == resolved(a),
        resolved(seq!["/"@, ".."@]) == resolved(seq!["/"@]),
{
    reveal_strlit("/");
    reveal_strlit(".");
    reveal_strlit("..");
    assert("."@.len() == 1 && ".."@.len() == 2 && "/"@[0] == '/');
    let b = a.push(name);
    assert(b.drop_last() =~= a);
    assert(b.push(".."@).drop_last() =~= b);
    assert(a.push("."@).drop_last() =~= a);
    assert(name == "/"@ ==> name.contains('/'));
    assert(resolved(b) =~= resolved(a).push(name));
    assert(resolved(b).drop_last() =~= resolved(a));
    let r = seq!["/"@];
    assert(seq!["/"@, ".."@].drop_last() =~= r);
    assert(r.drop_last() =~= Seq::<Seq<char>>::empty());
    reveal_with_fuel(resolved, 2);
    assert(resolved(r) =~= r);
}

} // verus!
