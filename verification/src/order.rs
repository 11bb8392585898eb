//! Orders on text and a stable sort.

use vstd::prelude::*;

use crate::text::chars_of;

verus! {

/// `a` comes before `b`, character by character, in code point order.
pub open spec fn text_lt(a: Seq<char>, b: Seq<char>) -> bool
    decreases a.len(),
{
    if b.len() == 0 {
        false
    } else if a.len() == 0 {
        true
    } else if a[0] != b[0] {
        a[0] < b[0]
    } else {
        text_lt(a.drop_first(), b.drop_first())
    }
}

/// Whether `a` comes before `b` in code point order.
pub fn text_before(a: &str, b: &str) -> (r: bool)
    ensures
        r == text_lt(a@, b@),
{
    let x = chars_of(a);
    let y = chars_of(b);
    let mut i: usize = 0;
    proof {
        assert(a@.skip(0) =~= a@);
        assert(b@.skip(0) =~= b@);
    }
    while i < x.len() && i < y.len()
        invariant
            i <= x.len(),
            i <= y.len(),
            x@ == a@,
            y@ == b@,
            text_lt(a@, b@) == text_lt(a@.skip(i as int), b@.skip(i as int)),
        decreases x.len() - i,
    {
        if x[i] != y[i] {
            return x[i] < y[i];
        }
        proof {
            assert(a@.skip(i as int).drop_first() =~= a@.skip(i + 1));
            assert(b@.skip(i as int).drop_first() =~= b@.skip(i + 1));
        }
        i = i + 1;
    }
    y.len() > i
}

/// Exactly one of two different texts comes first.
pub proof fn lemma_text_lt_total(a: Seq<char>, b: Seq<char>)
    ensures
        text_lt(a, b) || text_lt(b, a) || a == b,
        !(text_lt(a, b) && text_lt(b, a)),
        !text_lt(a, a),
    decreases a.len(),
{
    if a.len() > 0 && b.len() > 0 && a[0] == b[0] {
        lemma_text_lt_total(a.drop_first(), b.drop_first());
        if a.drop_first() == b.drop_first() {
            assert(a =~= seq![a[0]] + a.drop_first());
            assert(b =~= seq![b[0]] + b.drop_first());
        }
    } else if a.len() == 0 && b.len() == 0 {
        assert(a =~= b);
    }
    if a.len() > 0 {
        lemma_text_lt_total(a.drop_first(), a.drop_first());
    }
}

/// The order on texts is transitive.
pub proof fn lemma_text_lt_transitive(a: Seq<char>, b: Seq<char>, c: Seq<char>)
    requires
        text_lt(a, b),
        text_lt(b, c),
    ensures
        text_lt(a, c),
    decreases a.len(),
{
    if a.len() > 0 && a[0] == b[0] && b[0] == c[0] {
        lemma_text_lt_transitive(a.drop_first(), b.drop_first(), c.drop_first());
    }
}

/// A value that a list can be sorted by.
pub trait Ordered: Sized {
    /// `self` belongs strictly before `other`.
    spec fn before(self, other: Self) -> bool;
}

/// A value whose order can be tested.
pub trait Ranked: Ordered {
    /// Whether `self` belongs strictly before `other`.
    fn comes_before(&self, other: &Self) -> (r: bool)
        ensures
            r == self.before(*other),
    ;
}

/// `x` put behind the last element of `s` that it does not belong before.
pub open spec fn inserted<T: Ordered>(s: Seq<T>, x: T) -> Seq<T>
    decreases s.len(),
{
    if s.len() > 0 && x.before(s.last()) {
        inserted(s.drop_last(), x).push(s.last())
    } else {
        s.push(x)
    }
}

/// `s` in order; elements of equal rank keep their order.
pub open spec fn sorted<T: Ordered>(s: Seq<T>) -> Seq<T>
    decreases s.len(),
{
    if s.len() == 0 {
        s
    } else {
        inserted(sorted(s.drop_last()), s.last())
    }
}

/// Sorting neither adds nor drops an element.
pub proof fn lemma_sorted_same_elements<T: Ordered>(s: Seq<T>)
    ensures
        sorted(s).to_multiset() == s.to_multiset(),
        sorted(s).len() == s.len(),
    decreases s.len(),
{
    broadcast use vstd::seq_lib::group_to_multiset_ensures;

    if s.len() > 0 {
        lemma_sorted_same_elements(s.drop_last());
        lemma_inserted_same_elements(sorted(s.drop_last()), s.last());
        assert(s =~= s.drop_last().push(s.last()));
    }
}

proof fn lemma_inserted_same_elements<T: Ordered>(s: Seq<T>, x: T)
    ensures
        inserted(s, x).to_multiset() == s.to_multiset().insert(x),
        inserted(s, x).len() == s.len() + 1,
    decreases s.len(),
{
    broadcast use vstd::seq_lib::group_to_multiset_ensures;

    if s.len() > 0 && x.before(s.last()) {
        lemma_inserted_same_elements(s.drop_last(), x);
        assert(s =~= s.drop_last().push(s.last()));
        assert(s.drop_last().to_multiset().insert(x).insert(s.last())
            =~= s.drop_last().to_multiset().insert(s.last()).insert(x));
    }
}

/// What holds of every element of `s` holds of every element of its sorted
/// form, and the other way round.
pub proof fn lemma_sorted_contains<T: Ordered>(s: Seq<T>, x: T)
    ensures
        sorted(s).contains(x) == s.contains(x),
{
    broadcast use vstd::seq_lib::group_to_multiset_ensures;

    lemma_sorted_same_elements(s);
    assert(s.to_multiset().contains(x) == s.contains(x));
    assert(sorted(s).to_multiset().contains(x) == sorted(s).contains(x));
}

/// No element stands behind one that it belongs before.
pub open spec fn in_order<T: Ordered>(s: Seq<T>) -> bool {
    forall|i: int, j: int| 0 <= i < j < s.len() ==> !(#[trigger] s[j]).before(#[trigger] s[i])
}

/// Sorting puts a list in order, where the order is transitive and does not
/// go both ways.
pub proof fn lemma_sorted_in_order<T: Ordered>(s: Seq<T>)
    requires
        forall|a: T, b: T, c: T| #![trigger a.before(b), b.before(c)]
            a.before(b) && b.before(c) ==> a.before(c),
        forall|a: T, b: T, c: T| #![trigger a.before(c), a.before(b)]
            a.before(c) ==> a.before(b) || b.before(c),
        forall|a: T| !(#[trigger] a.before(a)),
    ensures
        in_order(sorted(s)),
    decreases s.len(),
{
    if s.len() > 0 {
        lemma_sorted_in_order(s.drop_last());
        lemma_inserted_in_order(sorted(s.drop_last()), s.last());
    }
}

proof fn lemma_inserted_in_order<T: Ordered>(s: Seq<T>, x: T)
    requires
        in_order(s),
        forall|a: T, b: T, c: T| #![trigger a.before(b), b.before(c)]
            a.before(b) && b.before(c) ==> a.before(c),
        forall|a: T, b: T, c: T| #![trigger a.before(c), a.before(b)]
            a.before(c) ==> a.before(b) || b.before(c),
        forall|a: T| !(#[trigger] a.before(a)),
    ensures
        in_order(inserted(s, x)),
        forall|k: int| 0 <= k < inserted(s, x).len() ==> inserted(s, x)[k] == x || s.contains(
            #[trigger] inserted(s, x)[k],
        ),
    decreases s.len(),
{
    let out = inserted(s, x);
    if s.len() > 0 && x.before(s.last()) {
        let head = inserted(s.drop_last(), x);
        assert forall|i: int, j: int| 0 <= i < j < s.len() - 1 implies !(
        #[trigger] s.drop_last()[j]).before(#[trigger] s.drop_last()[i]) by {
            assert(!s[j].before(s[i]));
        }
        lemma_inserted_in_order(s.drop_last(), x);
        assert forall|k: int| 0 <= k < head.len() implies head[k] == x || s.contains(
            #[trigger] head[k],
        ) by {
            if head[k] != x {
                let m = choose|m: int| 0 <= m < s.drop_last().len() && s.drop_last()[m] == head[k];
                assert(s[m] == head[k]);
            }
        }
        assert forall|i: int, j: int| 0 <= i < j < out.len() implies !(#[trigger] out[j]).before(
            #[trigger] out[i],
        ) by {
            if j == out.len() - 1 {
                if head[i] == x {
                    if s.last().before(x) {
                        assert(x.before(x));
                    }
                } else {
                    let m = choose|m: int|
                        0 <= m < s.drop_last().len() && s.drop_last()[m] == head[i];
                    assert(!s[s.len() - 1].before(s[m]));
                }
            } else {
                assert(!head[j].before(head[i]));
            }
        }
        assert forall|k: int| 0 <= k < out.len() implies out[k] == x || s.contains(
            #[trigger] out[k],
        ) by {
            if k < head.len() {
                assert(out[k] == head[k]);
            } else {
                assert(s[s.len() - 1] == out[k]);
            }
        }
    } else {
        assert forall|i: int, j: int| 0 <= i < j < out.len() implies !(#[trigger] out[j]).before(
            #[trigger] out[i],
        ) by {
            if j == out.len() - 1 {
                if x.before(s[i]) {
                    if i < s.len() - 1 {
                        assert(!s[s.len() - 1].before(s[i]));
                        assert(x.before(s.last()) || s.last().before(s[i]));
                    }
                }
            } else {
                assert(!s[j].before(s[i]));
            }
        }
        assert forall|k: int| 0 <= k < out.len() implies out[k] == x || s.contains(
            #[trigger] out[k],
        ) by {
            if k < s.len() {
                assert(s[k] == out[k]);
            }
        }
    }
}

/// Sorting commutes with a map that keeps the order.
pub proof fn lemma_sorted_map<T: Ordered, U: Ordered>(s: Seq<T>, f: spec_fn(T) -> U)
    requires
        forall|a: T, b: T| #[trigger] a.before(b) == f(a).before(f(b)),
    ensures
        sorted(s).map_values(f) == sorted(s.map_values(f)),
    decreases s.len(),
{
    let mapped = s.map_values(f);
    if s.len() > 0 {
        lemma_sorted_map(s.drop_last(), f);
        lemma_inserted_map(sorted(s.drop_last()), s.last(), f);
        assert(mapped.drop_last() =~= s.drop_last().map_values(f));
    } else {
        assert(sorted(s).map_values(f) =~= sorted(mapped));
    }
}

proof fn lemma_inserted_map<T: Ordered, U: Ordered>(s: Seq<T>, x: T, f: spec_fn(T) -> U)
    requires
        forall|a: T, b: T| #[trigger] a.before(b) == f(a).before(f(b)),
    ensures
        inserted(s, x).map_values(f) == inserted(s.map_values(f), f(x)),
    decreases s.len(),
{
    let mapped = s.map_values(f);
    if s.len() > 0 && x.before(s.last()) {
        lemma_inserted_map(s.drop_last(), x, f);
        assert(mapped.drop_last() =~= s.drop_last().map_values(f));
        assert(mapped.last() == f(s.last()));
        assert(inserted(s, x).map_values(f) =~= inserted(s.drop_last(), x).map_values(f).push(
            f(s.last()),
        ));
    } else {
        if s.len() > 0 {
            assert(x.before(s.last()) == f(x).before(f(s.last())));
            assert(mapped.last() == f(s.last()));
        }
        assert(inserted(s, x).map_values(f) =~= inserted(mapped, f(x)));
    }
}

/// Puts `v` in order; elements of equal rank keep their order.
pub fn sort_stable<T: Ranked>(v: Vec<T>) -> (r: Vec<T>)
    ensures
        r@ == sorted(v@),
{
    let ghost all = v@;
    let mut rest = v;
    let mut out: Vec<T> = Vec::new();
    let ghost mut done: int = 0;
    proof {
        assert(all.skip(0) =~= all);
        assert(all.take(0) =~= Seq::<T>::empty());
    }
    while rest.len() > 0
        invariant
            0 <= done <= all.len(),
            rest@ == all.skip(done),
            out@ == sorted(all.take(done)),
        decreases rest.len(),
    {
        let x = rest.remove(0);
        proof {
            assert(x == all[done]);
            assert(rest@ =~= all.skip(done + 1));
            assert(all.take(done + 1).drop_last() =~= all.take(done));
        }
        insert_ranked(&mut out, x);
        proof {
            done = done + 1;
        }
    }
    proof {
        assert(all.take(all.len() as int) =~= all);
    }
    out
}

/// Puts `x` behind the last element of `v` that it does not belong before.
fn insert_ranked<T: Ranked>(v: &mut Vec<T>, x: T)
    ensures
        final(v)@ == inserted(old(v)@, x),
{
    let ghost s = v@;
    let mut i: usize = v.len();
    proof {
        assert(s.take(s.len() as int) =~= s);
        assert(inserted(s, x) =~= inserted(s.take(i as int), x) + s.skip(i as int));
    }
    while i > 0 && x.comes_before(&v[i - 1])
        invariant
            i <= v@.len(),
            v@ == s,
            inserted(s, x) == inserted(s.take(i as int), x) + s.skip(i as int),
        decreases i,
    {
        proof {
            let head = s.take(i as int);
            assert(head.drop_last() =~= s.take(i - 1));
            assert(inserted(head, x) == inserted(s.take(i - 1), x).push(head.last()));
            assert(inserted(s.take(i - 1), x).push(head.last()) + s.skip(i as int) =~= inserted(
                s.take(i - 1),
                x,
            ) + s.skip(i - 1));
        }
        i = i - 1;
    }
    v.insert(i, x);
    proof {
        assert(inserted(s.take(i as int), x) == s.take(i as int).push(x));
        assert(v@ =~= s.take(i as int).push(x) + s.skip(i as int));
    }
}

} // verus!
