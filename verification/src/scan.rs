//! Finding tags in text: what stands before a tag that is looked for, and
//! what is read between two of them.

use vstd::prelude::*;

verus! {

/// The tag with this name: `<name>`, and `</name>` for the name `/name`.
pub open spec fn tag(name: Seq<char>) -> Seq<char> {
    seq!['<'] + name + seq!['>']
}

/// The name of the tag that closes what `name` opens.
pub open spec fn closing(name: Seq<char>) -> Seq<char> {
    seq!['/'] + name
}

/// A name that can stand in a tag.
pub open spec fn is_name(name: Seq<char>) -> bool {
    !name.contains('<') && !name.contains('>')
}

/// The text behind the first place where `pat` stands.
pub open spec fn behind(s: Seq<char>, pat: Seq<char>) -> Option<Seq<char>> {
    match crate::text::find_from(s, pat, 0) {
        Some(i) => Some(s.skip(i + pat.len())),
        None => None,
    }
}

/// The text in front of the first place where `pat` stands.
pub open spec fn in_front(s: Seq<char>, pat: Seq<char>) -> Option<Seq<char>> {
    match crate::text::find_from(s, pat, 0) {
        Some(i) => Some(s.take(i)),
        None => None,
    }
}

/// What stands in the first element with this name.
pub open spec fn element_in(s: Seq<char>, name: Seq<char>) -> Option<Seq<char>> {
    match behind(s, tag(name)) {
        Some(rest) => in_front(rest, tag(closing(name))),
        None => None,
    }
}

/// What stands in each element with this name, in their order, read as text.
pub open spec fn elements_in(s: Seq<char>, name: Seq<char>) -> Seq<Seq<char>>
    decreases s.len(),
{
    match behind(s, tag(name)) {
        None => Seq::empty(),
        Some(rest) => match (in_front(rest, tag(closing(name))), behind(rest, tag(closing(name)))) {
            (Some(body), Some(more)) => if more.len() < s.len() {
                seq![crate::xml::unescaped(body)] + elements_in(more, name)
            } else {
                Seq::empty()
            },
            _ => Seq::empty(),
        },
    }
}

/// Whatever follows `x`, `pat` stands nowhere in it that begins in `x`.
pub open spec fn passes(x: Seq<char>, pat: Seq<char>) -> bool {
    forall|rest: Seq<char>, i: int|
        0 <= i < x.len() ==> !(#[trigger] crate::text::occurs_at(x + rest, pat, i))
}

pub proof fn lemma_passes_concat(a: Seq<char>, b: Seq<char>, pat: Seq<char>)
    requires
        passes(a, pat),
        passes(b, pat),
    ensures
        passes(a + b, pat),
{
    assert forall|rest: Seq<char>, i: int| 0 <= i < (a + b).len() implies !(
    #[trigger] crate::text::occurs_at((a + b) + rest, pat, i)) by {
        let s = (a + b) + rest;
        assert(s =~= a + (b + rest));
        if i < a.len() {
            assert(!crate::text::occurs_at(a + (b + rest), pat, i));
        } else {
            let j = i - a.len();
            assert(!crate::text::occurs_at(b + rest, pat, j));
            if crate::text::occurs_at(s, pat, i) {
                assert((b + rest).subrange(j, j + pat.len()) =~= s.subrange(i, i + pat.len()));
            }
        }
    }
}

/// Text without the character that a pattern begins with does not hold it.
pub proof fn lemma_passes_char(x: Seq<char>, pat: Seq<char>)
    requires
        pat.len() > 0,
        !x.contains(pat[0]),
    ensures
        passes(x, pat),
{
    assert forall|rest: Seq<char>, i: int| 0 <= i < x.len() implies !(
    #[trigger] crate::text::occurs_at(x + rest, pat, i)) by {
        let s = x + rest;
        if crate::text::occurs_at(s, pat, i) {
            assert(s.subrange(i, i + pat.len())[0] == s[i]);
            assert(s[i] == x[i]);
            assert(x.contains(x[i]));
        }
    }
}

/// Text without `<` holds no tag.
pub proof fn lemma_passes_text(x: Seq<char>, pat: Seq<char>)
    requires
        pat.len() > 0,
        pat[0] == '<',
        !x.contains('<'),
    ensures
        passes(x, pat),
{
    lemma_passes_char(x, pat);
}

/// A tag holds no other one than itself.
pub proof fn lemma_passes_tag(t: Seq<char>, pat: Seq<char>)
    requires
        t.len() >= 2,
        t[0] == '<',
        t.last() == '>',
        forall|i: int| 0 < i < t.len() ==> t[i] != '<',
        pat.len() > 0,
        pat[0] == '<',
        forall|i: int| 0 <= i < pat.len() - 1 ==> pat[i] != '>',
        !pat.is_prefix_of(t),
    ensures
        passes(t, pat),
{
    assert forall|rest: Seq<char>, i: int| 0 <= i < t.len() implies !(
    #[trigger] crate::text::occurs_at(t + rest, pat, i)) by {
        let s = t + rest;
        if crate::text::occurs_at(s, pat, i) {
            let here = s.subrange(i, i + pat.len());
            assert(here[0] == s[i]);
            if i == 0 {
                if pat.len() <= t.len() {
                    assert(pat =~= t.subrange(0, pat.len() as int));
                } else {
                    assert(here[t.len() - 1] == s[t.len() - 1]);
                    assert(pat[t.len() - 1] == '>');
                }
            }
        }
    }
}

/// Two different names make tags of which neither stands in the other.
pub proof fn lemma_passes_other_tag(m: Seq<char>, n: Seq<char>)
    requires
        is_name(m),
        is_name(n),
        m != n,
    ensures
        passes(tag(m), tag(n)),
{
    let t = tag(m);
    let pat = tag(n);
    assert forall|i: int| 0 < i < t.len() implies t[i] != '<' by {
        if i < t.len() - 1 {
            assert(t[i] == m[i - 1]);
            assert(m.contains(m[i - 1]));
        }
    }
    assert forall|i: int| 0 <= i < pat.len() - 1 implies pat[i] != '>' by {
        if i > 0 {
            assert(pat[i] == n[i - 1]);
            assert(n.contains(n[i - 1]));
        }
    }
    if pat.is_prefix_of(t) {
        assert(pat == t.subrange(0, pat.len() as int));
        if n.len() < m.len() {
            assert(pat[(n.len() + 1) as int] == '>');
            assert(t[(n.len() + 1) as int] == m[n.len() as int]);
            assert(m.contains(m[n.len() as int]));
        } else {
            assert forall|i: int| 0 <= i < n.len() implies n[i] == m[i] by {
                assert(pat[i + 1] == n[i]);
                assert(t[i + 1] == m[i]);
            }
            assert(n =~= m);
        }
    }
    lemma_passes_tag(t, pat);
}

pub proof fn lemma_find_passed(x: Seq<char>, rest: Seq<char>, pat: Seq<char>)
    requires
        passes(x, pat),
    ensures
        crate::text::find_from(x + rest, pat, 0) == (match crate::text::find_from(rest, pat, 0) {
            Some(i) => Some(x.len() + i),
            None => None,
        }),
{
    let s = x + rest;
    assert forall|i: int| 0 <= i < x.len() implies !crate::text::occurs_at(s, pat, i) by {
        assert(!crate::text::occurs_at(x + rest, pat, i));
    }
    crate::xml::lemma_find_skip(s, pat, 0, x.len() as int);
    crate::xml::lemma_find_shift(x, rest, pat, 0);
}

pub proof fn lemma_find_here(pat: Seq<char>, rest: Seq<char>)
    ensures
        crate::text::find_from(pat + rest, pat, 0) == Some(0int),
{
    assert((pat + rest).subrange(0, pat.len() as int) =~= pat);
}

/// What stands behind a tag and in front of it, where it was passed over.
pub proof fn lemma_split_at(x: Seq<char>, pat: Seq<char>, rest: Seq<char>)
    requires
        passes(x, pat),
    ensures
        behind(x + (pat + rest), pat) == Some(rest),
        in_front(x + (pat + rest), pat) == Some(x),
{
    lemma_find_passed(x, pat + rest, pat);
    lemma_find_here(pat, rest);
    let s = x + (pat + rest);
    assert(s.skip((x.len() + pat.len()) as int) =~= rest);
    assert(s.take(x.len() as int) =~= x);
}

/// What is looked for behind a text that it does not stand in is found where
/// that text ends.
pub proof fn lemma_behind_passed(x: Seq<char>, rest: Seq<char>, pat: Seq<char>)
    requires
        passes(x, pat),
    ensures
        behind(x + rest, pat) == behind(rest, pat),
{
    lemma_find_passed(x, rest, pat);
    crate::text::lemma_find_from(rest, pat, 0);
    if let Some(i) = crate::text::find_from(rest, pat, 0) {
        assert((x + rest).skip(x.len() + i + pat.len()) =~= rest.skip(i + pat.len()));
    }
}

/// An element is read where it stands.
pub proof fn lemma_element_read(
    x: Seq<char>,
    name: Seq<char>,
    body: Seq<char>,
    rest: Seq<char>,
)
    requires
        passes(x, tag(name)),
        passes(body, tag(closing(name))),
    ensures
        element_in(x + (tag(name) + (body + (tag(closing(name)) + rest))), name) == Some(body),
{
    lemma_split_at(x, tag(name), body + (tag(closing(name)) + rest));
    lemma_split_at(body, tag(closing(name)), rest);
}

/// The first of several elements is read, and then the others.
pub proof fn lemma_elements_step(
    x: Seq<char>,
    name: Seq<char>,
    value: Seq<char>,
    rest: Seq<char>,
)
    requires
        passes(x, tag(name)),
        is_name(name),
    ensures
        elements_in(
            x + (tag(name) + (crate::xml::escaped(value) + (tag(closing(name)) + rest))),
            name,
        ) == seq![value] + elements_in(rest, name),
{
    let body = crate::xml::escaped(value);
    crate::xml::lemma_escaped_is_inert(value);
    lemma_passes_text(body, tag(closing(name)));
    lemma_split_at(x, tag(name), body + (tag(closing(name)) + rest));
    lemma_split_at(body, tag(closing(name)), rest);
    crate::xml::lemma_escape_round_trip(value);
}

/// Text without `<` holds no element.
pub proof fn lemma_no_elements(x: Seq<char>, name: Seq<char>)
    requires
        !x.contains('<'),
    ensures
        elements_in(x, name) == Seq::<Seq<char>>::empty(),
{
    lemma_passes_text(x, tag(name));
    lemma_find_passed(x, Seq::empty(), tag(name));
    assert(x + Seq::<char>::empty() =~= x);
}

/// The pieces of a text, one behind the other.
pub open spec fn flat(pieces: Seq<Seq<char>>) -> Seq<char>
    decreases pieces.len(),
{
    if pieces.len() == 0 {
        Seq::empty()
    } else {
        flat(pieces.drop_last()) + pieces.last()
    }
}

pub proof fn lemma_flat_concat(a: Seq<Seq<char>>, b: Seq<Seq<char>>)
    ensures
        flat(a + b) == flat(a) + flat(b),
    decreases b.len(),
{
    if b.len() == 0 {
        assert(a + b =~= a);
        assert(flat(a) + flat(b) =~= flat(a));
    } else {
        lemma_flat_concat(a, b.drop_last());
        assert((a + b).drop_last() =~= a + b.drop_last());
        assert(flat(a) + flat(b.drop_last()) + b.last() =~= flat(a) + (flat(b.drop_last())
            + b.last()));
    }
}

/// A text can be taken apart at any of its pieces.
pub proof fn lemma_flat_split(pieces: Seq<Seq<char>>, k: int)
    requires
        0 <= k < pieces.len(),
    ensures
        flat(pieces) == flat(pieces.take(k)) + (pieces[k] + flat(pieces.skip(k + 1))),
{
    let a = pieces.take(k);
    let b = pieces.skip(k);
    assert(pieces =~= a + b);
    lemma_flat_concat(a, b);
    let c = seq![pieces[k]];
    assert(b =~= c + pieces.skip(k + 1));
    lemma_flat_concat(c, pieces.skip(k + 1));
    reveal_with_fuel(flat, 2);
    assert(c.drop_last() =~= Seq::<Seq<char>>::empty());
    assert(flat(c) =~= pieces[k]);
}

pub proof fn lemma_flat_passes(pieces: Seq<Seq<char>>, pat: Seq<char>)
    requires
        forall|i: int| 0 <= i < pieces.len() ==> passes(#[trigger] pieces[i], pat),
    ensures
        passes(flat(pieces), pat),
    decreases pieces.len(),
{
    if pieces.len() > 0 {
        let less = pieces.drop_last();
        assert forall|i: int| 0 <= i < less.len() implies passes(#[trigger] less[i], pat) by {
            assert(less[i] == pieces[i]);
        }
        lemma_flat_passes(less, pat);
        assert(passes(pieces[pieces.len() - 1], pat));
        lemma_passes_concat(flat(less), pieces.last(), pat);
    }
}

} // verus!
