//! Escaping of text inside the tags that tasks and models exchange.

use vstd::prelude::*;

use crate::text::{chars_of, find_chars, text_between};

verus! {

/// What stands for a character inside a tag.
pub open spec fn escape_char(c: char) -> Seq<char> {
    if c == '&' {
        "&amp;"@
    } else if c == '<' {
        "&lt;"@
    } else if c == '>' {
        "&gt;"@
    } else if c == '"' {
        "&quot;"@
    } else if c == '\'' {
        "&apos;"@
    } else {
        seq![c]
    }
}

/// The text with every special character escaped.
pub open spec fn escaped(s: Seq<char>) -> Seq<char>
    decreases s.len(),
{
    if s.len() == 0 {
        Seq::empty()
    } else {
        escaped(s.drop_last()) + escape_char(s.last())
    }
}

/// Escapes every special character of `value`.
pub fn escape_xml(value: &str) -> (r: String)
    ensures
        r@ == escaped(value@),
{
    let cs = chars_of(value);
    let mut r: String = String::new();
    let mut i: usize = 0;
    while i < cs.len()
        invariant
            i <= cs.len(),
            cs@ == value@,
            r@ == escaped(value@.take(i as int)),
        decreases cs.len() - i,
    {
        let c = cs[i];
        let ghost before = r@;
        proof {
            assert(value@.take(i + 1).drop_last() =~= value@.take(i as int));
        }
        if c == '&' {
            r.append("&amp;");
        } else if c == '<' {
            r.append("&lt;");
        } else if c == '>' {
            r.append("&gt;");
        } else if c == '"' {
            r.append("&quot;");
        } else if c == '\'' {
            r.append("&apos;");
        } else {
            r.push(c);
            proof {
                assert(r@ =~= before + seq![c]);
            }
        }
        i = i + 1;
    }
    proof {
        assert(value@.take(value@.len() as int) =~= value@);
    }
    r
}

/// The part of `s` from `from` on, with every occurrence of `pat`, taken from
/// left to right, replaced by `with`.
pub open spec fn replaced_from(
    s: Seq<char>,
    pat: Seq<char>,
    with: Seq<char>,
    from: int,
) -> Seq<char>
    decreases s.len() - from,
{
    if pat.len() == 0 || from < 0 || from > s.len() {
        Seq::empty()
    } else {
        match crate::text::find_from(s, pat, from) {
            None => s.skip(from),
            Some(i) => if i < from || i + pat.len() > s.len() {
                Seq::empty()
            } else {
                s.subrange(from, i) + with + replaced_from(s, pat, with, i + pat.len())
            },
        }
    }
}

/// `s` with every occurrence of `pat`, taken from left to right, replaced by
/// `with`.
pub open spec fn replaced(s: Seq<char>, pat: Seq<char>, with: Seq<char>) -> Seq<char> {
    replaced_from(s, pat, with, 0)
}

/// Replaces every occurrence of `pat` by `with`.
pub fn replace_text(s: &str, pat: &str, with: &str) -> (r: String)
    requires
        pat@.len() > 0,
    ensures
        r@ == replaced(s@, pat@, with@),
{
    let cs = chars_of(s);
    let ps = chars_of(pat);
    let mut r: String = String::new();
    let mut from: usize = 0;
    let ghost whole = replaced(s@, pat@, with@);
    proof {
        assert(r@ + replaced_from(s@, pat@, with@, 0) =~= whole);
    }
    loop
        invariant
            from <= cs@.len(),
            cs@ == s@,
            ps@ == pat@,
            pat@.len() > 0,
            whole == replaced(s@, pat@, with@),
            r@ + replaced_from(s@, pat@, with@, from as int) == whole,
        decreases cs@.len() - from,
    {
        proof {
            crate::text::lemma_find_from(s@, pat@, from as int);
        }
        match find_chars(cs.as_slice(), ps.as_slice(), from) {
            None => {
                let tail = text_between(cs.as_slice(), from, cs.len());
                proof {
                    assert(tail@ =~= s@.skip(from as int));
                }
                r.append(tail.as_str());
                return r;
            },
            Some(i) => {
                let ghost before = r@;
                let piece = text_between(cs.as_slice(), from, i);
                r.append(piece.as_str());
                r.append(with);
                proof {
                    let rest = replaced_from(s@, pat@, with@, i + pat@.len());
                    assert(before + (s@.subrange(from as int, i as int) + with@ + rest) =~= r@
                        + rest);
                    assert(i + ps@.len() <= cs.len());
                }
                from = i + ps.len();
            },
        }
    }
}

/// The text with the five escapes undone, one after the other, `&amp;` last.
pub open spec fn unescaped(s: Seq<char>) -> Seq<char> {
    let s = replaced(s, "&quot;"@, "\""@);
    let s = replaced(s, "&apos;"@, "'"@);
    let s = replaced(s, "&lt;"@, "<"@);
    let s = replaced(s, "&gt;"@, ">"@);
    replaced(s, "&amp;"@, "&"@)
}

/// Undoes the escapes.
pub fn unescape_xml(input: &str) -> (r: String)
    ensures
        r@ == unescaped(input@),
{
    proof {
        reveal_strlit("&quot;");
        reveal_strlit("&apos;");
        reveal_strlit("&lt;");
        reveal_strlit("&gt;");
        reveal_strlit("&amp;");
    }
    let s = replace_text(input, "&quot;", "\"");
    let s = replace_text(s.as_str(), "&apos;", "'");
    let s = replace_text(s.as_str(), "&lt;", "<");
    let s = replace_text(s.as_str(), "&gt;", ">");
    replace_text(s.as_str(), "&amp;", "&")
}

/// Which of the five characters a text has escaped.
struct Escapes {
    quot: bool,
    apos: bool,
    lt: bool,
    gt: bool,
}

spec fn part_char(e: Escapes, c: char) -> Seq<char> {
    if (c == '"' && !e.quot) || (c == '\'' && !e.apos) || (c == '<' && !e.lt) || (c == '>'
        && !e.gt) {
        seq![c]
    } else {
        escape_char(c)
    }
}

/// The text with `&` and the chosen characters escaped.
spec fn partly(e: Escapes, s: Seq<char>) -> Seq<char>
    decreases s.len(),
{
    if s.len() == 0 {
        Seq::empty()
    } else {
        part_char(e, s[0]) + partly(e, s.drop_first())
    }
}

/// Text in front of another shifts what is found in it.
pub proof fn lemma_find_shift(a: Seq<char>, b: Seq<char>, pat: Seq<char>, from: int)
    requires
        0 <= from,
    ensures
        crate::text::find_from(a + b, pat, a.len() + from) == (match crate::text::find_from(
            b,
            pat,
            from,
        ) {
            Some(i) => Some(a.len() + i),
            None => None,
        }),
    decreases b.len() + 1 - from,
{
    let s = a + b;
    if from + pat.len() <= b.len() {
        assert(s.subrange(a.len() + from, a.len() + from + pat.len()) =~= b.subrange(
            from,
            from + pat.len(),
        ));
        if !crate::text::occurs_at(b, pat, from) {
            lemma_find_shift(a, b, pat, from + 1);
        }
    }
}

proof fn lemma_replaced_shift(
    a: Seq<char>,
    b: Seq<char>,
    pat: Seq<char>,
    with: Seq<char>,
    from: int,
)
    requires
        0 <= from <= b.len(),
        pat.len() > 0,
    ensures
        replaced_from(a + b, pat, with, a.len() + from) == replaced_from(b, pat, with, from),
    decreases b.len() - from,
{
    lemma_find_shift(a, b, pat, from);
    crate::text::lemma_find_from(b, pat, from);
    match crate::text::find_from(b, pat, from) {
        None => {
            assert((a + b).skip(a.len() + from) =~= b.skip(from));
        },
        Some(i) => {
            lemma_replaced_shift(a, b, pat, with, i + pat.len());
            assert((a + b).subrange(a.len() + from, a.len() + i) =~= b.subrange(from, i));
        },
    }
}

/// An occurrence at the very start is replaced, and the rest on its own.
proof fn lemma_replaced_head(pat: Seq<char>, b: Seq<char>, with: Seq<char>)
    requires
        pat.len() > 0,
    ensures
        replaced(pat + b, pat, with) == with + replaced(b, pat, with),
{
    let s = pat + b;
    assert(s.subrange(0, pat.len() as int) =~= pat);
    assert(crate::text::find_from(s, pat, 0) == Some(0int));
    lemma_replaced_shift(pat, b, pat, with, 0);
    assert(s.subrange(0, 0) + with + replaced_from(s, pat, with, pat.len() as int) =~= with
        + replaced(b, pat, with));
}

/// Where no occurrence begins in `a`, only what follows it changes.
proof fn lemma_replaced_skip(a: Seq<char>, b: Seq<char>, pat: Seq<char>, with: Seq<char>)
    requires
        pat.len() > 0,
        forall|i: int| 0 <= i < a.len() ==> !crate::text::occurs_at(a + b, pat, i),
    ensures
        replaced(a + b, pat, with) == a + replaced(b, pat, with),
{
    let s = a + b;
    lemma_find_skip(s, pat, 0, a.len() as int);
    lemma_find_shift(a, b, pat, 0);
    crate::text::lemma_find_from(b, pat, 0);
    match crate::text::find_from(b, pat, 0) {
        None => {
            assert(crate::text::find_from(s, pat, 0) is None);
            assert(s.skip(0) =~= a + b.skip(0));
        },
        Some(i) => {
            assert(crate::text::find_from(s, pat, 0) == Some(a.len() + i));
            lemma_replaced_shift(a, b, pat, with, i + pat.len());
            let rest = replaced_from(b, pat, with, i + pat.len());
            assert(s.subrange(0, a.len() + i) + with + rest =~= a + (b.subrange(0, i) + with
                + rest));
        },
    }
}

/// Where a text does not stand, it need not be looked for.
pub proof fn lemma_find_skip(s: Seq<char>, pat: Seq<char>, from: int, to: int)
    requires
        0 <= from <= to <= s.len(),
        forall|i: int| from <= i < to ==> !crate::text::occurs_at(s, pat, i),
    ensures
        crate::text::find_from(s, pat, from) == crate::text::find_from(s, pat, to),
    decreases to - from,
{
    if from < to {
        lemma_find_skip(s, pat, from + 1, to);
        if from + pat.len() > s.len() {
            assert(crate::text::find_from(s, pat, to) is None);
        }
    }
}

spec fn has_escaped(e: Escapes, c: char) -> bool {
    ||| c == '&'
    ||| c == '"' && e.quot
    ||| c == '\'' && e.apos
    ||| c == '<' && e.lt
    ||| c == '>' && e.gt
}

spec fn without(e: Escapes, c: char) -> Escapes {
    Escapes {
        quot: e.quot && c != '"',
        apos: e.apos && c != '\'',
        lt: e.lt && c != '<',
        gt: e.gt && c != '>',
    }
}

/// Undoing one escape of a partly escaped text.
proof fn lemma_undo_one(e: Escapes, c: char, s: Seq<char>)
    requires
        has_escaped(e, c),
        c != '&',
    ensures
        replaced(partly(e, s), escape_char(c), seq![c]) == partly(without(e, c), s),
    decreases s.len(),
{
    reveal_strlit("&quot;");
    reveal_strlit("&apos;");
    reveal_strlit("&lt;");
    reveal_strlit("&gt;");
    reveal_strlit("&amp;");
    let pat = escape_char(c);
    if s.len() == 0 {
        lemma_replaced_empty(pat, seq![c]);
    } else {
        lemma_undo_one(e, c, s.drop_first());
        let rest = partly(e, s.drop_first());
        let head = part_char(e, s[0]);
        if s[0] == c {
            assert(head == pat);
            lemma_replaced_head(pat, rest, seq![c]);
            assert(part_char(without(e, c), c) == seq![c]);
        } else {
            assert forall|i: int| 0 <= i < head.len() implies !crate::text::occurs_at(
                head + rest,
                pat,
                i,
            ) by {
                let whole = head + rest;
                if crate::text::occurs_at(whole, pat, i) {
                    let sub = whole.subrange(i, i + pat.len());
                    assert(sub[0] == whole[i]);
                    assert(sub[1] == whole[i + 1]);
                    assert(sub[2] == whole[i + 2]);
                    assert(whole[i] == head[i]);
                    assert(pat[0] == '&');
                    assert(i == 0);
                    assert(head.len() > 1 ==> whole[1] == head[1]);
                    assert(head.len() > 2 ==> whole[2] == head[2]);
                }
            }
            lemma_replaced_skip(head, rest, pat, seq![c]);
            assert(part_char(without(e, c), s[0]) == head);
        }
    }
}

proof fn lemma_replaced_empty(pat: Seq<char>, with: Seq<char>)
    requires
        pat.len() > 0,
    ensures
        replaced(Seq::<char>::empty(), pat, with) == Seq::<char>::empty(),
{
    assert(Seq::<char>::empty().skip(0) =~= Seq::<char>::empty());
}

/// Undoing `&amp;` once nothing else is escaped.
proof fn lemma_undo_amp(e: Escapes, s: Seq<char>)
    requires
        !e.quot && !e.apos && !e.lt && !e.gt,
    ensures
        replaced(partly(e, s), "&amp;"@, seq!['&']) == s,
    decreases s.len(),
{
    reveal_strlit("&amp;");
    let pat = "&amp;"@;
    if s.len() == 0 {
        lemma_replaced_empty(pat, seq!['&']);
        assert(s =~= Seq::<char>::empty());
    } else {
        lemma_undo_amp(e, s.drop_first());
        let rest = partly(e, s.drop_first());
        let head = part_char(e, s[0]);
        if s[0] == '&' {
            lemma_replaced_head(pat, rest, seq!['&']);
        } else {
            assert(head == seq![s[0]]);
            assert forall|i: int| 0 <= i < head.len() implies !crate::text::occurs_at(
                head + rest,
                pat,
                i,
            ) by {
                let whole = head + rest;
                if crate::text::occurs_at(whole, pat, i) {
                    assert(whole.subrange(i, i + pat.len())[0] == whole[i]);
                    assert(whole[i] == head[i]);
                }
            }
            lemma_replaced_skip(head, rest, pat, seq!['&']);
        }
        assert(seq![s[0]] + s.drop_first() =~= s);
    }
}

proof fn lemma_escaped_is_partly(s: Seq<char>)
    ensures
        escaped(s) == partly(Escapes { quot: true, apos: true, lt: true, gt: true }, s),
    decreases s.len(),
{
    let e = Escapes { quot: true, apos: true, lt: true, gt: true };
    if s.len() > 0 {
        lemma_escaped_is_partly(s.drop_last());
        lemma_partly_push(e, s.drop_last(), s.last());
        assert(s.drop_last().push(s.last()) =~= s);
    }
}

proof fn lemma_partly_push(e: Escapes, s: Seq<char>, c: char)
    ensures
        partly(e, s.push(c)) == partly(e, s) + part_char(e, c),
    decreases s.len(),
{
    if s.len() == 0 {
        assert(s.push(c).drop_first() =~= Seq::<char>::empty());
        assert(part_char(e, c) + Seq::<char>::empty() =~= Seq::<char>::empty() + part_char(e, c));
        reveal_with_fuel(partly, 2);
    } else {
        lemma_partly_push(e, s.drop_first(), c);
        assert(s.push(c).drop_first() =~= s.drop_first().push(c));
        assert(part_char(e, s[0]) + (partly(e, s.drop_first()) + part_char(e, c)) =~= (part_char(
            e,
            s[0],
        ) + partly(e, s.drop_first())) + part_char(e, c));
    }
}

/// Undoing the escapes of an escaped text gives the text back.
pub proof fn lemma_escape_round_trip(s: Seq<char>)
    ensures
        unescaped(escaped(s)) == s,
{
    reveal_strlit("\"");
    reveal_strlit("'");
    reveal_strlit("<");
    reveal_strlit(">");
    reveal_strlit("&");
    assert("\""@ =~= seq!['"']);
    assert("'"@ =~= seq!['\'']);
    assert("<"@ =~= seq!['<']);
    assert(">"@ =~= seq!['>']);
    assert("&"@ =~= seq!['&']);
    let e0 = Escapes { quot: true, apos: true, lt: true, gt: true };
    let e1 = without(e0, '"');
    let e2 = without(e1, '\'');
    let e3 = without(e2, '<');
    let e4 = without(e3, '>');
    lemma_escaped_is_partly(s);
    lemma_undo_one(e0, '"', s);
    lemma_undo_one(e1, '\'', s);
    lemma_undo_one(e2, '<', s);
    lemma_undo_one(e3, '>', s);
    lemma_undo_amp(e4, s);
}

proof fn lemma_partly_clean(s: Seq<char>)
    ensures
        forall|i: int|
            0 <= i < escaped(s).len() ==> #[trigger] escaped(s)[i] != '<' && escaped(s)[i] != '>'
                && escaped(s)[i] != '"',
    decreases s.len(),
{
    reveal_strlit("&quot;");
    reveal_strlit("&apos;");
    reveal_strlit("&lt;");
    reveal_strlit("&gt;");
    reveal_strlit("&amp;");
    if s.len() > 0 {
        lemma_partly_clean(s.drop_last());
        let head = escaped(s.drop_last());
        let tail = escape_char(s.last());
        assert forall|i: int| 0 <= i < escaped(s).len() implies #[trigger] escaped(s)[i] != '<'
            && escaped(s)[i] != '>' && escaped(s)[i] != '"' by {
            if i < head.len() {
                assert(escaped(s)[i] == head[i]);
            } else {
                assert(escaped(s)[i] == tail[i - head.len()]);
            }
        }
    }
}

/// Escaped text holds no bracket and no double quote, so it can neither open
/// nor close a tag nor end an attribute.
pub proof fn lemma_escaped_is_inert(s: Seq<char>)
    ensures
        !escaped(s).contains('<'),
        !escaped(s).contains('>'),
        !escaped(s).contains('"'),
{
    lemma_partly_clean(s);
}

} // verus!
