//! What a model says is what is read: a reply made of actions gives those
//! actions back, all of them and in their order.

use vstd::prelude::*;

use crate::adapter::{parse_actions, ActionModel, AdapterError, LlmAction, Located};
use crate::order::Ordered;
use crate::scan::{closing, passes, tag};
use crate::task::TaskStatus;

verus! {

/// The opening tag of an action, without its brackets.
pub open spec fn opening_of(a: ActionModel) -> Seq<char> {
    match a {
        ActionModel::Execute(_) => "execute"@,
        ActionModel::Write { path, content } => "write path=\""@ + crate::xml::escaped(path)
            + "\""@,
        ActionModel::Finish { status, reason } => "finish status=\""@ + (if status is Success {
            "Success"@
        } else {
            "Failed"@
        }) + "\""@,
    }
}

/// The name of the tag that closes an action.
pub open spec fn ending_of(a: ActionModel) -> Seq<char> {
    match a {
        ActionModel::Execute(_) => "execute"@,
        ActionModel::Write { path, content } => "write"@,
        ActionModel::Finish { status, reason } => "finish"@,
    }
}

/// What stands in the element of an action.
pub open spec fn said_in(a: ActionModel) -> Seq<char> {
    match a {
        ActionModel::Execute(command) => command,
        ActionModel::Write { path, content } => content,
        ActionModel::Finish { status, reason } => reason,
    }
}

/// The element that asks for an action, with its text escaped.
pub open spec fn element_of(a: ActionModel) -> Seq<char> {
    tag(opening_of(a)) + (crate::xml::escaped(said_in(a)) + tag(closing(ending_of(a))))
}

/// An action that an element can ask for: a command and a reason have no white
/// space at their ends, a command is not empty, and a task finishes as a
/// success or as failed.
pub open spec fn can_be_said(a: ActionModel) -> bool {
    match a {
        ActionModel::Execute(c) => c.len() > 0 && !crate::text::is_space(c[0])
            && !crate::text::is_space(c.last()),
        ActionModel::Write { path, content } => true,
        ActionModel::Finish { status, reason } => (status is Success || status is Failed) && (
        reason.len() > 0 ==> !crate::text::is_space(reason[0]) && !crate::text::is_space(
            reason.last(),
        )),
    }
}

/// A reply: actions, each with some text in front of it, and text at the end.
pub open spec fn reply_of(said: Seq<(Seq<char>, ActionModel)>, end: Seq<char>) -> Seq<char>
    decreases said.len(),
{
    if said.len() == 0 {
        end
    } else {
        said[0].0 + (element_of(said[0].1) + reply_of(said.drop_first(), end))
    }
}

/// The text around the actions holds no tag, and each action can be said.
pub open spec fn is_sayable(said: Seq<(Seq<char>, ActionModel)>, end: Seq<char>) -> bool {
    &&& !end.contains('<')
    &&& forall|i: int|
        0 <= i < said.len() ==> !(#[trigger] said[i]).0.contains('<') && can_be_said(said[i].1)
}

/// The actions with their offsets, from `base` on.
spec fn placed(said: Seq<(Seq<char>, ActionModel)>, base: int) -> Seq<Located>
    decreases said.len(),
{
    if said.len() == 0 {
        Seq::empty()
    } else {
        let start = base + said[0].0.len();
        seq![Located { offset: start, action: said[0].1 }] + placed(
            said.drop_first(),
            start + element_of(said[0].1).len(),
        )
    }
}

spec fn executes(s: Seq<Located>) -> Seq<Located>
    decreases s.len(),
{
    if s.len() == 0 {
        Seq::empty()
    } else if s[0].action is Execute {
        seq![s[0]] + executes(s.drop_first())
    } else {
        executes(s.drop_first())
    }
}

spec fn writes(s: Seq<Located>) -> Seq<Located>
    decreases s.len(),
{
    if s.len() == 0 {
        Seq::empty()
    } else if s[0].action is Write {
        seq![s[0]] + writes(s.drop_first())
    } else {
        writes(s.drop_first())
    }
}

spec fn finishes(s: Seq<Located>) -> Seq<Located>
    decreases s.len(),
{
    if s.len() == 0 {
        Seq::empty()
    } else if s[0].action is Finish {
        seq![s[0]] + finishes(s.drop_first())
    } else {
        finishes(s.drop_first())
    }
}

proof fn lemma_literals()
    ensures
        "<execute>"@ == tag("execute"@),
        "</execute>"@ == tag(closing("execute"@)),
        "</write>"@ == tag(closing("write"@)),
        "</finish>"@ == tag(closing("finish"@)),
        "<write"@.len() == 6 && "<write"@[0] == '<' && "<write"@[1] == 'w',
        "<finish"@.len() == 7 && "<finish"@[0] == '<' && "<finish"@[1] == 'f',
        "<execute>"@.len() == 9 && "<execute>"@[0] == '<' && "<execute>"@[1] == 'e',
        forall|i: int| 0 <= i < 6 ==> "<write"@[i] != '>',
        forall|i: int| 0 <= i < 7 ==> "<finish"@[i] != '>',
        forall|i: int| 0 <= i < 8 ==> "<execute>"@[i] != '>',
        "write path=\""@.len() == 12 && "write path=\""@[0] == 'w',
        "<write"@ == seq!['<'] + "write path=\""@.take(5),
        "finish status=\""@.len() == 15 && "finish status=\""@[0] == 'f',
        "<finish"@ == seq!['<'] + "finish status=\""@.take(6),
        "execute"@.len() == 7 && "execute"@[0] == 'e',
        "write"@.len() == 5,
        "finish"@.len() == 6,
        ">"@ == seq!['>'],
        "\""@ == seq!['"'],
        crate::scan::is_name("execute"@),
        crate::scan::is_name("write"@),
        crate::scan::is_name("finish"@),
        crate::scan::is_name("write path=\""@),
        crate::scan::is_name("finish status=\""@),
        crate::scan::is_name("Success"@) && !"Success"@.contains('"'),
        crate::scan::is_name("Failed"@) && !"Failed"@.contains('"'),
        "Success"@.len() == 7 && "Failed"@.len() == 6,
{
    reveal_strlit("<execute>");
    reveal_strlit("</execute>");
    reveal_strlit("</write>");
    reveal_strlit("</finish>");
    reveal_strlit("<write");
    reveal_strlit("<finish");
    reveal_strlit("write path=\"");
    reveal_strlit("finish status=\"");
    reveal_strlit("execute");
    reveal_strlit("write");
    reveal_strlit("finish");
    reveal_strlit("Success");
    reveal_strlit("Failed");
    reveal_strlit(">");
    reveal_strlit("\"");
    assert("<execute>"@ =~= tag("execute"@));
    assert("</execute>"@ =~= tag(closing("execute"@)));
    assert("</write>"@ =~= tag(closing("write"@)));
    assert("</finish>"@ =~= tag(closing("finish"@)));
    assert("<write"@ =~= seq!['<'] + "write path=\""@.take(5));
    assert("<finish"@ =~= seq!['<'] + "finish status=\""@.take(6));
    assert(">"@ =~= seq!['>']);
    assert("\""@ =~= seq!['"']);
}

proof fn lemma_opening_is_name(a: ActionModel)
    ensures
        crate::scan::is_name(opening_of(a)),
        opening_of(a).len() > 0,
        a is Execute ==> opening_of(a)[0] == 'e',
        a is Write ==> opening_of(a)[0] == 'w',
        a is Finish ==> opening_of(a)[0] == 'f',
{
    lemma_literals();
    match a {
        ActionModel::Execute(_) => {},
        ActionModel::Write { path, content } => {
            crate::xml::lemma_escaped_is_inert(path);
            lemma_three_named("write path=\""@, crate::xml::escaped(path));
        },
        ActionModel::Finish { status, reason } => {
            lemma_three_named(
                "finish status=\""@,
                if status is Success {
                    "Success"@
                } else {
                    "Failed"@
                },
            );
        },
    }
}

proof fn lemma_three_named(a: Seq<char>, b: Seq<char>)
    requires
        crate::scan::is_name(a),
        crate::scan::is_name(b),
    ensures
        crate::scan::is_name(a + b + "\""@),
{
    reveal_strlit("\"");
    let s = a + b + "\""@;
    assert forall|i: int| 0 <= i < s.len() implies s[i] != '<' && s[i] != '>' by {
        if i < a.len() {
            assert(a.contains(a[i]));
        } else if i < a.len() + b.len() {
            assert(b.contains(b[i - a.len()]));
        }
    }
}

/// A tag whose name begins otherwise is passed over.
proof fn lemma_passes_by_name(name: Seq<char>, pat: Seq<char>)
    requires
        crate::scan::is_name(name),
        name.len() > 0,
        pat.len() > 1,
        pat[0] == '<',
        forall|i: int| 0 <= i < pat.len() - 1 ==> pat[i] != '>',
        name[0] != pat[1],
    ensures
        passes(tag(name), pat),
{
    let t = tag(name);
    assert forall|i: int| 0 < i < t.len() implies t[i] != '<' by {
        if i < t.len() - 1 {
            assert(name.contains(name[i - 1]));
        }
    }
    if pat.is_prefix_of(t) {
        assert(t.subrange(0, pat.len() as int)[1] == t[1]);
    }
    crate::scan::lemma_passes_tag(t, pat);
}

/// The element of an action is passed over by a search for another kind.
proof fn lemma_element_passes(a: ActionModel, pat: Seq<char>)
    requires
        pat.len() > 1,
        pat[0] == '<',
        forall|i: int| 0 <= i < pat.len() - 1 ==> pat[i] != '>',
        pat[1] != '/',
        a is Execute ==> pat[1] != 'e',
        a is Write ==> pat[1] != 'w',
        a is Finish ==> pat[1] != 'f',
    ensures
        passes(element_of(a), pat),
{
    lemma_literals();
    lemma_opening_is_name(a);
    let end = closing(ending_of(a));
    let body = crate::xml::escaped(said_in(a));
    assert(crate::scan::is_name(end)) by {
        assert forall|i: int| 0 <= i < end.len() implies end[i] != '<' && end[i] != '>' by {
            if i > 0 {
                assert(ending_of(a).contains(ending_of(a)[i - 1]));
            }
        }
    }
    crate::xml::lemma_escaped_is_inert(said_in(a));
    lemma_passes_by_name(opening_of(a), pat);
    lemma_passes_by_name(end, pat);
    crate::scan::lemma_passes_text(body, pat);
    crate::scan::lemma_passes_concat(body, tag(end), pat);
    crate::scan::lemma_passes_concat(tag(opening_of(a)), body + tag(end), pat);
}

/// What is looked for from the end of `x` on, where `x` passes it, is looked
/// for in what follows.
pub proof fn lemma_find_behind(pre: Seq<char>, x: Seq<char>, rest: Seq<char>, pat: Seq<char>)
    requires
        passes(x, pat),
    ensures
        crate::text::find_from(pre + (x + rest), pat, pre.len() as int) == crate::text::find_from(
            pre + (x + rest),
            pat,
            (pre.len() + x.len()) as int,
        ),
{
    crate::xml::lemma_find_shift(pre, x + rest, pat, 0);
    crate::scan::lemma_find_passed(x, rest, pat);
    assert(pre + (x + rest) =~= (pre + x) + rest);
    crate::xml::lemma_find_shift(pre + x, rest, pat, 0);
}

/// What stands right behind `pre` and `x`, where `x` passes it, is found
/// there.
proof fn lemma_found_at(pre: Seq<char>, x: Seq<char>, pat: Seq<char>, rest: Seq<char>)
    requires
        passes(x, pat),
    ensures
        crate::text::find_from(pre + (x + (pat + rest)), pat, pre.len() as int) == Some(
            (pre.len() + x.len()) as int,
        ),
{
    crate::xml::lemma_find_shift(pre, x + (pat + rest), pat, 0);
    crate::scan::lemma_find_passed(x, pat + rest, pat);
    crate::scan::lemma_find_here(pat, rest);
}

proof fn lemma_execute_skips(s: Seq<char>, a: int, b: int)
    requires
        0 <= a <= b <= s.len(),
        crate::text::find_from(s, "<execute>"@, a) == crate::text::find_from(s, "<execute>"@, b),
    ensures
        crate::adapter::execute_actions(s, a) == crate::adapter::execute_actions(s, b),
{
    lemma_literals();
    crate::text::lemma_find_from(s, "<execute>"@, b);
    if let Some(start) = crate::text::find_from(s, "<execute>"@, b) {
        crate::text::lemma_find_from(s, "</execute>"@, start + "<execute>"@.len());
    }
}

proof fn lemma_write_skips(s: Seq<char>, a: int, b: int)
    requires
        0 <= a <= b <= s.len(),
        crate::text::find_from(s, "<write"@, a) == crate::text::find_from(s, "<write"@, b),
    ensures
        crate::adapter::write_actions(s, a) == crate::adapter::write_actions(s, b),
{
    lemma_literals();
    crate::text::lemma_find_from(s, "<write"@, b);
    if let Some(start) = crate::text::find_from(s, "<write"@, b) {
        crate::text::lemma_find_from(s, ">"@, start);
        if let Some(gt) = crate::text::find_from(s, ">"@, start) {
            crate::text::lemma_find_from(s, "</write>"@, gt + 1);
        }
    }
}

proof fn lemma_finish_skips(s: Seq<char>, a: int, b: int)
    requires
        0 <= a <= b <= s.len(),
        crate::text::find_from(s, "<finish"@, a) == crate::text::find_from(s, "<finish"@, b),
    ensures
        crate::adapter::finish_actions(s, a) == crate::adapter::finish_actions(s, b),
{
    lemma_literals();
    crate::text::lemma_find_from(s, "<finish"@, b);
    if let Some(start) = crate::text::find_from(s, "<finish"@, b) {
        crate::text::lemma_find_from(s, ">"@, start);
        if let Some(gt) = crate::text::find_from(s, ">"@, start) {
            crate::text::lemma_find_from(s, "</finish>"@, gt + 1);
        }
    }
}

/// Escaping keeps the ends of a text free of white space.
proof fn lemma_escaped_ends(s: Seq<char>)
    requires
        s.len() > 0,
    ensures
        crate::xml::escaped(s).len() > 0,
        !crate::text::is_space(s[0]) ==> !crate::text::is_space(crate::xml::escaped(s)[0]),
        !crate::text::is_space(s.last()) ==> !crate::text::is_space(crate::xml::escaped(s).last()),
    decreases s.len(),
{
    reveal_strlit("&amp;");
    reveal_strlit("&lt;");
    reveal_strlit("&gt;");
    reveal_strlit("&quot;");
    reveal_strlit("&apos;");
    let last = crate::xml::escape_char(s.last());
    assert(last.len() > 0);
    assert(!crate::text::is_space('&') && !crate::text::is_space(';'));
    assert(!crate::text::is_space(s.last()) ==> !crate::text::is_space(last.last()));
    if s.len() == 1 {
        assert(s.drop_last() =~= Seq::<char>::empty());
        assert(crate::xml::escaped(s) =~= last);
        assert(!crate::text::is_space(s[0]) ==> !crate::text::is_space(last[0]));
    } else {
        lemma_escaped_ends(s.drop_last());
        assert(s.drop_last()[0] == s[0]);
    }
}

proof fn lemma_trimmed_escaped(s: Seq<char>)
    requires
        s.len() > 0 ==> !crate::text::is_space(s[0]) && !crate::text::is_space(s.last()),
    ensures
        crate::xml::unescaped(crate::text::trimmed(crate::xml::escaped(s))) == s,
{
    if s.len() > 0 {
        lemma_escaped_ends(s);
    }
    crate::text::lemma_trimmed_bare(crate::xml::escaped(s));
    crate::xml::lemma_escape_round_trip(s);
}

proof fn lemma_execute_read(pre: Seq<char>, c: Seq<char>, rest: Seq<char>)
    requires
        can_be_said(ActionModel::Execute(c)),
    ensures
        ({
            let a = ActionModel::Execute(c);
            let s = pre + (element_of(a) + rest);
            crate::adapter::execute_actions(s, pre.len() as int) == seq![
                Located { offset: pre.len() as int, action: a },
            ] + crate::adapter::execute_actions(s, (pre.len() + element_of(a).len()) as int)
        }),
{
    lemma_literals();
    let a = ActionModel::Execute(c);
    let s = pre + (element_of(a) + rest);
    let open = "<execute>"@;
    let close = "</execute>"@;
    let body = crate::xml::escaped(c);
    let none = Seq::<char>::empty();
    crate::xml::lemma_escaped_is_inert(c);
    crate::scan::lemma_passes_text(body, close);
    assert(s =~= pre + (none + (open + (body + (close + rest)))));
    lemma_found_at(pre, none, open, body + (close + rest));
    assert(s =~= (pre + open) + (body + (close + rest)));
    lemma_found_at(pre + open, body, close, rest);
    let at = (pre.len() + open.len()) as int;
    let end = (at + body.len()) as int;
    assert(s.subrange(at, end) =~= body);
    lemma_trimmed_escaped(c);
    assert(element_of(a).len() == open.len() + body.len() + close.len());
}

/// The value of an attribute in an opening tag.
proof fn lemma_attribute_read(
    lead: Seq<char>,
    name: Seq<char>,
    value: Seq<char>,
    end: Seq<char>,
)
    requires
        name.len() > 0,
        !lead.contains(name[0]),
        !value.contains('"'),
    ensures
        crate::adapter::attribute(
            lead + ((name + "=\""@) + (value + ("\""@ + end))),
            name,
        ) == Some(value),
{
    reveal_strlit("\"");
    reveal_strlit("=\"");
    let needle = name + "=\""@;
    let t = lead + (needle + (value + ("\""@ + end)));
    let none = Seq::<char>::empty();
    assert(needle[0] == name[0]);
    crate::scan::lemma_passes_char(lead, needle);
    crate::scan::lemma_find_passed(lead, needle + (value + ("\""@ + end)), needle);
    crate::scan::lemma_find_here(needle, value + ("\""@ + end));
    assert(t =~= (lead + needle) + (value + ("\""@ + end)));
    crate::scan::lemma_passes_char(value, "\""@);
    lemma_found_at(lead + needle, value, "\""@, end);
    let start = (lead.len() + needle.len()) as int;
    assert(t.subrange(start, start + value.len()) =~= value);
}

/// The opening tag that stands behind `pre` is found, with its end.
pub proof fn lemma_opening_read(pre: Seq<char>, open: Seq<char>, name: Seq<char>, rest: Seq<char>)
    requires
        crate::scan::is_name(name),
        open.len() > 0,
        open.is_prefix_of(seq!['<'] + name),
    ensures
        ({
            let s = pre + (tag(name) + rest);
            let gt = (pre.len() + 1 + name.len()) as int;
            &&& crate::adapter::opening_tag(s, open, pre.len() as int) == Some(
                (pre.len() as int, gt),
            )
            &&& s.subrange(pre.len() as int, gt + 1) == tag(name)
        }),
{
    reveal_strlit(">");
    let s = pre + (tag(name) + rest);
    let x = seq!['<'] + name;
    let none = Seq::<char>::empty();
    let more = x.skip(open.len() as int) + (seq!['>'] + rest);
    assert(x =~= open + x.skip(open.len() as int));
    assert(s =~= pre + (none + (open + more)));
    lemma_found_at(pre, none, open, more);
    assert(">"@ =~= seq!['>']);
    assert forall|i: int| 0 <= i < x.len() implies x[i] != '>' by {
        if i > 0 {
            assert(name.contains(name[i - 1]));
        }
    }
    crate::scan::lemma_passes_char(x, ">"@);
    assert(s =~= pre + (x + (">"@ + rest)));
    lemma_found_at(pre, x, ">"@, rest);
    assert(s.subrange(pre.len() as int, (pre.len() + 2 + name.len()) as int) =~= tag(name));
}

proof fn lemma_write_attribute(a: ActionModel)
    requires
        a is Write,
    ensures
        crate::adapter::attribute(tag(opening_of(a)), "path"@) == Some(
            crate::xml::escaped(a->Write_path),
        ),
        "<write"@.is_prefix_of(seq!['<'] + opening_of(a)),
{
    lemma_literals();
    reveal_strlit("path");
    reveal_strlit("=\"");
    reveal_strlit("write ");
    reveal_strlit("write path=\"");
    let value = crate::xml::escaped(a->Write_path);
    crate::xml::lemma_escaped_is_inert(a->Write_path);
    let lead = seq!['<'] + "write "@;
    assert("write path=\""@ =~= "write "@ + ("path"@ + "=\""@));
    assert(tag(opening_of(a)) =~= lead + (("path"@ + "=\""@) + (value + ("\""@ + seq!['>']))));
    assert(!lead.contains('p'));
    lemma_attribute_read(lead, "path"@, value, seq!['>']);
    assert("<write"@ =~= (seq!['<'] + opening_of(a)).subrange(0, 6));
}

proof fn lemma_finish_attribute(a: ActionModel)
    requires
        a is Finish,
        can_be_said(a),
    ensures
        crate::adapter::finish_status(
            crate::adapter::attribute(tag(opening_of(a)), "status"@),
        ) == Ok::<TaskStatus, Seq<char>>(a->Finish_status),
        "<finish"@.is_prefix_of(seq!['<'] + opening_of(a)),
{
    lemma_literals();
    reveal_strlit("status");
    reveal_strlit("=\"");
    reveal_strlit("finish ");
    reveal_strlit("finish status=\"");
    let status = a->Finish_status;
    let value = if status is Success {
        "Success"@
    } else {
        "Failed"@
    };
    let lead = seq!['<'] + "finish "@;
    assert("finish status=\""@ =~= "finish "@ + ("status"@ + "=\""@));
    assert(tag(opening_of(a)) =~= lead + (("status"@ + "=\""@) + (value + ("\""@ + seq!['>']))));
    // The `s` of `finish` is followed by `h`, so that `status` begins only
    // behind the blank.
    lemma_status_read(value);
    assert("<finish"@ =~= (seq!['<'] + opening_of(a)).subrange(0, 7));
}

proof fn lemma_status_read(value: Seq<char>)
    requires
        !value.contains('"'),
    ensures
        crate::adapter::attribute(
            (seq!['<'] + "finish "@) + (("status"@ + "=\""@) + (value + ("\""@ + seq!['>']))),
            "status"@,
        ) == Some(value),
{
    reveal_strlit("\"");
    reveal_strlit("=\"");
    reveal_strlit("status");
    reveal_strlit("finish ");
    let lead = seq!['<'] + "finish "@;
    let needle = "status"@ + "=\""@;
    let end = seq!['>'];
    let rest = value + ("\""@ + end);
    let t = lead + (needle + rest);
    assert(needle[0] == 's' && needle[1] == 't');
    assert(lead.len() == 8);
    assert(lead[5] == 's' && lead[6] == 'h');
    assert forall|more: Seq<char>, i: int| 0 <= i < lead.len() implies !(
    #[trigger] crate::text::occurs_at(lead + more, needle, i)) by {
        let u = lead + more;
        if crate::text::occurs_at(u, needle, i) {
            let here = u.subrange(i, i + needle.len());
            assert(here[0] == u[i]);
            assert(here[1] == u[i + 1]);
            assert(u[i] == lead[i]);
            if i == 5 {
                assert(u[6] == lead[6]);
            }
        }
    }
    crate::scan::lemma_find_passed(lead, needle + rest, needle);
    crate::scan::lemma_find_here(needle, rest);
    assert(t =~= (lead + needle) + (value + ("\""@ + end)));
    crate::scan::lemma_passes_char(value, "\""@);
    lemma_found_at(lead + needle, value, "\""@, end);
    let start = (lead.len() + needle.len()) as int;
    assert(t.subrange(start, start + value.len()) =~= value);
}

proof fn lemma_write_read(pre: Seq<char>, a: ActionModel, rest: Seq<char>)
    requires
        a is Write,
    ensures
        ({
            let s = pre + (element_of(a) + rest);
            crate::adapter::write_actions(s, pre.len() as int) == crate::adapter::with_first(
                Located { offset: pre.len() as int, action: a },
                crate::adapter::write_actions(s, (pre.len() + element_of(a).len()) as int),
            )
        }),
{
    lemma_literals();
    let s = pre + (element_of(a) + rest);
    let name = opening_of(a);
    let close = "</write>"@;
    let content = a->Write_content;
    let body = crate::xml::escaped(content);
    lemma_opening_is_name(a);
    lemma_write_attribute(a);
    assert(s =~= pre + (tag(name) + (body + (close + rest))));
    lemma_opening_read(pre, "<write"@, name, body + (close + rest));
    crate::xml::lemma_escaped_is_inert(content);
    crate::scan::lemma_passes_text(body, close);
    assert(s =~= (pre + tag(name)) + (body + (close + rest)));
    lemma_found_at(pre + tag(name), body, close, rest);
    let at = (pre.len() + tag(name).len()) as int;
    assert(s.subrange(at, at + body.len()) =~= body);
    crate::xml::lemma_escape_round_trip(content);
    crate::xml::lemma_escape_round_trip(a->Write_path);
    assert(element_of(a).len() == tag(name).len() + body.len() + close.len());
}

proof fn lemma_finish_read(pre: Seq<char>, a: ActionModel, rest: Seq<char>)
    requires
        a is Finish,
        can_be_said(a),
    ensures
        ({
            let s = pre + (element_of(a) + rest);
            crate::adapter::finish_actions(s, pre.len() as int) == crate::adapter::with_first(
                Located { offset: pre.len() as int, action: a },
                crate::adapter::finish_actions(s, (pre.len() + element_of(a).len()) as int),
            )
        }),
{
    lemma_literals();
    let s = pre + (element_of(a) + rest);
    let name = opening_of(a);
    let close = "</finish>"@;
    let reason = a->Finish_reason;
    let body = crate::xml::escaped(reason);
    lemma_opening_is_name(a);
    lemma_finish_attribute(a);
    assert(s =~= pre + (tag(name) + (body + (close + rest))));
    lemma_opening_read(pre, "<finish"@, name, body + (close + rest));
    crate::xml::lemma_escaped_is_inert(reason);
    crate::scan::lemma_passes_text(body, close);
    assert(s =~= (pre + tag(name)) + (body + (close + rest)));
    lemma_found_at(pre + tag(name), body, close, rest);
    let at = (pre.len() + tag(name).len()) as int;
    assert(s.subrange(at, at + body.len()) =~= body);
    lemma_trimmed_escaped(reason);
    assert(element_of(a).len() == tag(name).len() + body.len() + close.len());
}

/// From the end of `pre` on, a reply holds its actions at their places.
proof fn lemma_reply_read(
    pre: Seq<char>,
    said: Seq<(Seq<char>, ActionModel)>,
    end: Seq<char>,
)
    requires
        is_sayable(said, end),
    ensures
        ({
            let s = pre + reply_of(said, end);
            let found = placed(said, pre.len() as int);
            let from = pre.len() as int;
            &&& crate::adapter::execute_actions(s, from) == executes(found)
            &&& crate::adapter::write_actions(s, from) == Ok::<Seq<Located>, Seq<char>>(
                writes(found),
            )
            &&& crate::adapter::finish_actions(s, from) == Ok::<Seq<Located>, Seq<char>>(
                finishes(found),
            )
        }),
    decreases said.len(),
{
    let s = pre + reply_of(said, end);
    let from = pre.len() as int;
    lemma_literals();
    if said.len() == 0 {
        let none = Seq::<char>::empty();
        crate::scan::lemma_passes_text(end, "<execute>"@);
        crate::scan::lemma_passes_text(end, "<write"@);
        crate::scan::lemma_passes_text(end, "<finish"@);
        assert(s =~= pre + (end + none));
        lemma_find_behind(pre, end, none, "<execute>"@);
        lemma_find_behind(pre, end, none, "<write"@);
        lemma_find_behind(pre, end, none, "<finish"@);
    } else {
        let gap = said[0].0;
        let a = said[0].1;
        let rest = said.drop_first();
        let more = reply_of(rest, end);
        let e = element_of(a);
        assert(!said[0].0.contains('<') && can_be_said(said[0].1));
        assert forall|i: int| 0 <= i < rest.len() implies !(#[trigger] rest[i]).0.contains('<')
            && can_be_said(rest[i].1) by {
            assert(rest[i] == said[i + 1]);
        }
        let before = pre + gap;
        let after = before + e;
        lemma_reply_read(after, rest, end);
        assert(s =~= after + more);
        assert(s =~= before + (e + more));
        assert(s =~= pre + (gap + (e + more)));
        lemma_gap(pre, gap, e + more);
        lemma_one_read(before, a, more);
        let found = placed(said, from);
        let head = Located { offset: before.len() as int, action: a };
        assert(found[0] == head);
        assert(found.drop_first() =~= placed(rest, after.len() as int));
    }
}

/// Text without a tag is passed over by each search.
proof fn lemma_gap(pre: Seq<char>, gap: Seq<char>, rest: Seq<char>)
    requires
        !gap.contains('<'),
    ensures
        ({
            let s = pre + (gap + rest);
            let from = pre.len() as int;
            let to = (pre.len() + gap.len()) as int;
            &&& crate::adapter::execute_actions(s, from) == crate::adapter::execute_actions(s, to)
            &&& crate::adapter::write_actions(s, from) == crate::adapter::write_actions(s, to)
            &&& crate::adapter::finish_actions(s, from) == crate::adapter::finish_actions(s, to)
        }),
{
    let s = pre + (gap + rest);
    let from = pre.len() as int;
    let to = (pre.len() + gap.len()) as int;
    lemma_literals();
    crate::scan::lemma_passes_text(gap, "<execute>"@);
    crate::scan::lemma_passes_text(gap, "<write"@);
    crate::scan::lemma_passes_text(gap, "<finish"@);
    lemma_find_behind(pre, gap, rest, "<execute>"@);
    lemma_find_behind(pre, gap, rest, "<write"@);
    lemma_find_behind(pre, gap, rest, "<finish"@);
    lemma_execute_skips(s, from, to);
    lemma_write_skips(s, from, to);
    lemma_finish_skips(s, from, to);
}

/// Of the three searches exactly one finds an element; the others pass it.
proof fn lemma_one_read(pre: Seq<char>, a: ActionModel, rest: Seq<char>)
    requires
        can_be_said(a),
    ensures
        ({
            let s = pre + (element_of(a) + rest);
            let from = pre.len() as int;
            let to = (pre.len() + element_of(a).len()) as int;
            let head = Located { offset: from, action: a };
            let e = crate::adapter::execute_actions(s, to);
            let w = crate::adapter::write_actions(s, to);
            let f = crate::adapter::finish_actions(s, to);
            &&& crate::adapter::execute_actions(s, from) == (if a is Execute {
                seq![head] + e
            } else {
                e
            })
            &&& crate::adapter::write_actions(s, from) == (if a is Write {
                crate::adapter::with_first(head, w)
            } else {
                w
            })
            &&& crate::adapter::finish_actions(s, from) == (if a is Finish {
                crate::adapter::with_first(head, f)
            } else {
                f
            })
        }),
{
    let s = pre + (element_of(a) + rest);
    let from = pre.len() as int;
    let to = (pre.len() + element_of(a).len()) as int;
    lemma_literals();
    match a {
        ActionModel::Execute(c) => {
            lemma_execute_read(pre, c, rest);
        },
        _ => {
            lemma_element_passes(a, "<execute>"@);
            lemma_find_behind(pre, element_of(a), rest, "<execute>"@);
            lemma_execute_skips(s, from, to);
        },
    }
    if a is Write {
        lemma_write_read(pre, a, rest);
    } else {
        lemma_element_passes(a, "<write"@);
        lemma_find_behind(pre, element_of(a), rest, "<write"@);
        lemma_write_skips(s, from, to);
    }
    if a is Finish {
        lemma_finish_read(pre, a, rest);
    } else {
        lemma_element_passes(a, "<finish"@);
        lemma_find_behind(pre, element_of(a), rest, "<finish"@);
        lemma_finish_skips(s, from, to);
    }
}

proof fn lemma_kinds_are_all(s: Seq<Located>)
    ensures
        (executes(s) + writes(s) + finishes(s)).to_multiset() == s.to_multiset(),
    decreases s.len(),
{
    broadcast use vstd::seq_lib::group_to_multiset_ensures;

    let e = executes(s);
    let w = writes(s);
    let f = finishes(s);
    vstd::seq_lib::lemma_multiset_commutative(e + w, f);
    vstd::seq_lib::lemma_multiset_commutative(e, w);
    if s.len() > 0 {
        let rest = s.drop_first();
        lemma_kinds_are_all(rest);
        let e1 = executes(rest);
        let w1 = writes(rest);
        let f1 = finishes(rest);
        vstd::seq_lib::lemma_multiset_commutative(e1 + w1, f1);
        vstd::seq_lib::lemma_multiset_commutative(e1, w1);
        let one = seq![s[0]];
        assert(s =~= one + rest);
        vstd::seq_lib::lemma_multiset_commutative(one, rest);
        vstd::seq_lib::lemma_multiset_commutative(one, e1);
        vstd::seq_lib::lemma_multiset_commutative(one, w1);
        vstd::seq_lib::lemma_multiset_commutative(one, f1);
        assert((e + w + f).to_multiset() =~= s.to_multiset());
    } else {
        assert(e + w + f =~= s);
    }
}

/// Each place lies behind the one before it.
spec fn ascends(s: Seq<Located>) -> bool {
    forall|i: int, j: int| 0 <= i < j < s.len() ==> (#[trigger] s[i]).offset < (#[trigger] s[j]).offset
}

proof fn lemma_placed_ascends(said: Seq<(Seq<char>, ActionModel)>, base: int)
    ensures
        ascends(placed(said, base)),
        placed(said, base).len() == said.len(),
        forall|i: int| 0 <= i < said.len() ==> (#[trigger] placed(said, base)[i]).offset >= base,
        forall|i: int| 0 <= i < said.len() ==> (#[trigger] placed(said, base)[i]).action == said[i].1,
    decreases said.len(),
{
    if said.len() > 0 {
        let start = base + said[0].0.len();
        let next = (start + element_of(said[0].1).len()) as int;
        let rest = said.drop_first();
        lemma_placed_ascends(rest, next);
        let all = placed(said, base);
        let tail = placed(rest, next);
        assert forall|i: int, j: int| 0 <= i < j < all.len() implies (#[trigger] all[i]).offset < (
        #[trigger] all[j]).offset by {
            assert(all[j] == tail[j - 1]);
            if i > 0 {
                assert(all[i] == tail[i - 1]);
            }
        }
        assert forall|i: int| 0 <= i < said.len() implies (#[trigger] all[i]).action == said[i].1
            && all[i].offset >= base by {
            if i > 0 {
                assert(all[i] == tail[i - 1]);
                assert(rest[i - 1] == said[i]);
            }
        }
    }
}

/// A list in order that has the same elements as an ascending one is that one.
proof fn lemma_ascending_is_unique(c: Seq<Located>, b: Seq<Located>)
    requires
        c.to_multiset() == b.to_multiset(),
        crate::order::in_order(c),
        ascends(b),
    ensures
        c == b,
    decreases b.len(),
{
    broadcast use vstd::seq_lib::group_to_multiset_ensures;

    assert(c.len() == c.to_multiset().len());
    assert(b.len() == b.to_multiset().len());
    if b.len() == 0 {
        assert(c =~= b);
    } else {
        let x = c.last();
        let y = b.last();
        assert(c.to_multiset().contains(x) && b.to_multiset().contains(y)) by {
            assert(c.contains(c[c.len() - 1]));
            assert(b.contains(b[b.len() - 1]));
        }
        assert(b.contains(x) && c.contains(y));
        let i = choose|i: int| 0 <= i < b.len() && b[i] == x;
        let j = choose|j: int| 0 <= j < c.len() && c[j] == y;
        assert(!(c[c.len() - 1].before(c[j])) || j == c.len() - 1);
        if i < b.len() - 1 {
            assert(b[i].offset < b[b.len() - 1].offset);
            if j < c.len() - 1 {
                assert(!c[c.len() - 1].before(c[j]));
            }
            assert(false);
        }
        assert(x == y);
        let c1 = c.drop_last();
        let b1 = b.drop_last();
        assert(c =~= c1.push(x));
        assert(b =~= b1.push(y));
        assert(c1.to_multiset() =~= c.to_multiset().remove(x));
        assert(b1.to_multiset() =~= b.to_multiset().remove(y));
        assert forall|p: int, q: int| 0 <= p < q < c1.len() implies !(#[trigger] c1[q]).before(
            #[trigger] c1[p],
        ) by {
            assert(!c[q].before(c[p]));
        }
        assert forall|p: int, q: int| 0 <= p < q < b1.len() implies (#[trigger] b1[p]).offset < (
        #[trigger] b1[q]).offset by {
            assert(b[p].offset < b[q].offset);
        }
        lemma_ascending_is_unique(c1, b1);
        assert(c =~= b);
    }
}

/// A reply is read back whole: whatever actions a model asks for, each as an
/// element with its text escaped, with any text without tags around them, all
/// of them are read, with their paths and contents, and in their order.
pub proof fn lemma_replies_are_read_back(
    input: &str,
    said: Seq<(Seq<char>, ActionModel)>,
    end: Seq<char>,
    r: Result<Vec<LlmAction>, AdapterError>,
)
    requires
        is_sayable(said, end),
        input@ == reply_of(said, end),
        call_ensures(parse_actions, (input,), r),
    ensures
        r matches Ok(actions) && crate::adapter::action_models(actions@) == said.map_values(
            |s: (Seq<char>, ActionModel)| s.1,
        ),
{
    let none = Seq::<char>::empty();
    let s = input@;
    let found = placed(said, 0);
    assert(s =~= none + reply_of(said, end));
    lemma_reply_read(none, said, end);
    let all = executes(found) + writes(found) + finishes(found);
    let sorted = crate::order::sorted(all);
    lemma_kinds_are_all(found);
    crate::order::lemma_sorted_same_elements(all);
    crate::order::lemma_sorted_in_order(all);
    lemma_placed_ascends(said, 0);
    lemma_ascending_is_unique(sorted, found);
    assert(found.map_values(|l: Located| l.action) =~= said.map_values(
        |s: (Seq<char>, ActionModel)| s.1,
    ));
}


/// An element that asks for no command asks for nothing: the commands behind
/// it are the commands from it on.
pub proof fn lemma_blank_commands_are_passed_over(
    pre: Seq<char>,
    blank: Seq<char>,
    rest: Seq<char>,
)
    requires
        forall|k: int| 0 <= k < blank.len() ==> crate::text::is_space(#[trigger] blank[k]),
    ensures
        ({
            let element = "<execute>"@ + (blank + "</execute>"@);
            let s = pre + (element + rest);
            crate::adapter::execute_actions(s, pre.len() as int)
                == crate::adapter::execute_actions(s, (pre.len() + element.len()) as int)
        }),
{
    lemma_literals();
    let open = "<execute>"@;
    let close = "</execute>"@;
    let element = open + (blank + close);
    let s = pre + (element + rest);
    let none = Seq::<char>::empty();
    assert(!crate::text::is_space('<'));
    assert(!blank.contains('<'));
    crate::scan::lemma_passes_text(none, open);
    crate::scan::lemma_passes_text(blank, close);
    assert(s =~= pre + (none + (open + (blank + (close + rest)))));
    lemma_found_at(pre, none, open, blank + (close + rest));
    assert(s =~= (pre + open) + (blank + (close + rest)));
    lemma_found_at(pre + open, blank, close, rest);
    let at = (pre.len() + open.len()) as int;
    let end = (at + blank.len()) as int;
    assert(s.subrange(at, end) =~= blank);
    crate::text::lemma_trimmed_empty(blank);
    assert(crate::text::trimmed(blank) =~= none);
    lemma_nothing_is_unescaped();
}

proof fn lemma_nothing_is_unescaped()
    ensures
        crate::xml::unescaped(Seq::empty()) == Seq::<char>::empty(),
{
    let none = Seq::<char>::empty();
    crate::xml::lemma_escape_round_trip(none);
    assert(crate::xml::escaped(none) =~= none);
}

/// A task finishes as a success where nothing else is said, and as nothing but
/// a success or a failure.
pub proof fn lemma_tasks_finish_in_two_ways(named: Option<Seq<char>>)
    ensures
        named is None ==> crate::adapter::finish_status(named) == Ok::<TaskStatus, Seq<char>>(
            TaskStatus::Success,
        ),
        crate::adapter::finish_status(named) == Ok::<TaskStatus, Seq<char>>(TaskStatus::Failed)
            <==> named == Some("Failed"@),
        crate::adapter::finish_status(named) == Ok::<TaskStatus, Seq<char>>(TaskStatus::Success)
            <==> named is None || named == Some("Success"@),
        crate::adapter::finish_status(named) is Ok <==> named is None || named == Some("Success"@)
            || named == Some("Failed"@),
{
    reveal_strlit("Success");
    reveal_strlit("Failed");
    assert("Success"@.len() == 7 && "Failed"@.len() == 6);
}

} // verus!
