//! The actions that a model asks for: how they are read out of its reply, and
//! the fences that writing a file has to pass.

use vstd::prelude::*;

use crate::context::ContextError;
use crate::execution::{
    push_denial, CommandModel, CommandSpec, Effect, EffectModel, ExecutionError,
};
use crate::host_path::{
    components, file_name, is_absolute, join_path, normalize_path, path_starts_with,
};
use crate::manifest::AccessType;
use crate::order::{sort_stable, Ordered, Ranked};
use crate::task::{Task, TaskStatus};
use crate::task_fs::{ensure_task_fs_unblocked, TaskTable, TransactionError};
use crate::text::{
    begins_with_char, cat, cat3, chars_of, debug_of_char, decimal_text, find_chars, is_empty_text,
    owned, same_text, text_between, trim,
};
use crate::trace::{TaskEvent, TraceError};
use crate::xml::unescape_xml;

verus! {

/// One thing that a model asks for.
#[derive(Clone, Debug, PartialEq, Eq)]
pub enum LlmAction {
    Execute(String),
    Write { path: String, content: String },
    Finish { status: TaskStatus, reason: String },
}

/// The contents of an `LlmAction`.
pub enum ActionModel {
    Execute(Seq<char>),
    Write { path: Seq<char>, content: Seq<char> },
    Finish { status: TaskStatus, reason: Seq<char> },
}

impl View for LlmAction {
    type V = ActionModel;

    open spec fn view(&self) -> ActionModel {
        match self {
            LlmAction::Execute(c) => ActionModel::Execute(c@),
            LlmAction::Write { path, content } => ActionModel::Write {
                path: path@,
                content: content@,
            },
            LlmAction::Finish { status, reason } => ActionModel::Finish {
                status: *status,
                reason: reason@,
            },
        }
    }
}

pub open spec fn action_models(s: Seq<LlmAction>) -> Seq<ActionModel> {
    s.map_values(|a: LlmAction| a@)
}

/// Why a step of a task failed.
#[derive(Clone, Debug, PartialEq, Eq)]
pub enum AdapterError {
    MaxStepsExceeded(usize),
    MissingApiKey,
    Http(String),
    ApiStatus { status: String, body: String },
    InvalidResponse(String),
    InvalidAction(String),
    Violation(String),
    Context(ContextError),
    Execution(ExecutionError),
    Trace(TraceError),
    Transaction(TransactionError),
    Io { path: String, source: String },
}

impl AdapterError {
    /// The message shown for this error.
    pub open spec fn text(&self) -> Seq<char> {
        match self {
            AdapterError::MaxStepsExceeded(n) => "max_steps exceeded: "@ + crate::text::decimal(
                *n as nat,
            ),
            AdapterError::MissingApiKey => "V9R_API_KEY not set"@,
            AdapterError::Http(m) => "http client: "@ + m@,
            AdapterError::ApiStatus { status, body } => "LLM provider returned status "@ + status@
                + ": "@ + body@,
            AdapterError::InvalidResponse(m) => "invalid LLM provider response: "@ + m@,
            AdapterError::InvalidAction(m) => "invalid action: "@ + m@,
            AdapterError::Violation(m) => "permission violation: "@ + m@,
            AdapterError::Context(e) => "context: "@ + e.text(),
            AdapterError::Execution(e) => "execution: "@ + e.text(),
            AdapterError::Trace(e) => "trace: "@ + e.text(),
            AdapterError::Transaction(e) => "task filesystem: "@ + e.text(),
            AdapterError::Io { path, source } => "io at "@ + path@ + ": "@ + source@,
        }
    }

    /// The message shown for this error.
    pub fn message(&self) -> (r: String)
        ensures
            r@ == self.text(),
    {
        match self {
            AdapterError::MaxStepsExceeded(n) => {
                let t = decimal_text(*n as u64);
                cat("max_steps exceeded: ", t.as_str())
            },
            AdapterError::MissingApiKey => owned("V9R_API_KEY not set"),
            AdapterError::Http(m) => cat("http client: ", m.as_str()),
            AdapterError::ApiStatus { status, body } => {
                let mut r = cat3("LLM provider returned status ", status.as_str(), ": ");
                r.append(body.as_str());
                r
            },
            AdapterError::InvalidResponse(m) => cat(
                "invalid LLM provider response: ",
                m.as_str(),
            ),
            AdapterError::InvalidAction(m) => cat("invalid action: ", m.as_str()),
            AdapterError::Violation(m) => cat("permission violation: ", m.as_str()),
            AdapterError::Context(e) => {
                let t = e.message();
                cat("context: ", t.as_str())
            },
            AdapterError::Execution(e) => {
                let t = e.message();
                cat("execution: ", t.as_str())
            },
            AdapterError::Trace(e) => {
                let t = e.message();
                cat("trace: ", t.as_str())
            },
            AdapterError::Transaction(e) => {
                let t = e.message();
                cat("task filesystem: ", t.as_str())
            },
            AdapterError::Io { path, source } => {
                let mut r = cat3("io at ", path.as_str(), ": ");
                r.append(source.as_str());
                r
            },
        }
    }
}

/// An action and where its tag begins.
pub struct Located {
    pub offset: int,
    pub action: ActionModel,
}

impl Ordered for Located {
    open spec fn before(self, other: Self) -> bool {
        self.offset < other.offset
    }
}

struct Found {
    offset: usize,
    action: LlmAction,
}

impl View for Found {
    type V = Located;

    closed spec fn view(&self) -> Located {
        Located { offset: self.offset as int, action: self.action@ }
    }
}

impl Ordered for Found {
    closed spec fn before(self, other: Self) -> bool {
        self@.before(other@)
    }
}

impl Ranked for Found {
    fn comes_before(&self, other: &Self) -> (r: bool) {
        self.offset < other.offset
    }
}

spec fn found_views(s: Seq<Found>) -> Seq<Located> {
    s.map_values(|f: Found| f@)
}

/// The value of the attribute `name` in an opening tag: what stands between
/// `name="` and the next double quote.
pub open spec fn attribute(tag: Seq<char>, name: Seq<char>) -> Option<Seq<char>> {
    let needle = name + "=\""@;
    match crate::text::find_from(tag, needle, 0) {
        None => None,
        Some(i) => {
            let start = i + needle.len();
            match crate::text::find_from(tag, "\""@, start) {
                None => None,
                Some(end) => Some(tag.subrange(start, end)),
            }
        },
    }
}

fn attr_value(tag: &str, name: &str) -> (r: Option<String>)
    ensures
        match r {
            Some(v) => attribute(tag@, name@) == Some(v@),
            None => attribute(tag@, name@) is None,
        },
{
    let needle = cat(name, "=\"");
    let cs = chars_of(tag);
    let ns = chars_of(needle.as_str());
    let quote = chars_of("\"");
    match find_chars(cs.as_slice(), ns.as_slice(), 0) {
        None => None,
        Some(i) => {
            proof {
                assert(i + ns@.len() <= cs.len());
            }
            let start: usize = i + ns.len();
            match find_chars(cs.as_slice(), quote.as_slice(), start) {
                None => None,
                Some(end) => Some(text_between(cs.as_slice(), start, end)),
            }
        },
    }
}

/// A tag found in a reply: where it begins, where its body begins and ends,
/// and where the search goes on.
pub struct TagSpan {
    pub start: int,
    pub body: int,
    pub end: int,
    pub next: int,
}

/// The first element from `from` on whose opening tag is exactly `open`.
pub open spec fn plain_element(s: Seq<char>, open: Seq<char>, close: Seq<char>, from: int) -> Option<
    TagSpan,
> {
    match crate::text::find_from(s, open, from) {
        None => None,
        Some(start) => {
            let body = start + open.len();
            match crate::text::find_from(s, close, body) {
                None => None,
                Some(end) => Some(TagSpan { start, body, end, next: end + close.len() }),
            }
        },
    }
}

/// The first opening tag from `from` on that begins with `open`: where it
/// begins and where the `>` that ends it stands.
pub open spec fn opening_tag(s: Seq<char>, open: Seq<char>, from: int) -> Option<(int, int)> {
    match crate::text::find_from(s, open, from) {
        None => None,
        Some(start) => match crate::text::find_from(s, ">"@, start) {
            None => None,
            Some(gt) => Some((start, gt)),
        },
    }
}

/// The `<execute>` actions from `from` on. One whose body is blank asks for
/// nothing.
pub open spec fn execute_actions(s: Seq<char>, from: int) -> Seq<Located>
    decreases s.len() - from,
{
    match plain_element(s, "<execute>"@, "</execute>"@, from) {
        None => Seq::empty(),
        Some(t) => if from < t.next <= s.len() {
            let command = crate::xml::unescaped(crate::text::trimmed(s.subrange(t.body, t.end)));
            let rest = execute_actions(s, t.next);
            if command.len() == 0 {
                rest
            } else {
                seq![Located { offset: t.start, action: ActionModel::Execute(command) }] + rest
            }
        } else {
            Seq::empty()
        },
    }
}

/// Puts `head` in front of actions that were found, and leaves a refusal as it
/// is.
pub open spec fn with_first(head: Located, rest: Result<Seq<Located>, Seq<char>>) -> Result<
    Seq<Located>,
    Seq<char>,
> {
    match rest {
        Ok(r) => Ok(seq![head] + r),
        Err(m) => Err(m),
    }
}

/// The `<write>` actions from `from` on; a tag without a path is refused.
pub open spec fn write_actions(s: Seq<char>, from: int) -> Result<Seq<Located>, Seq<char>>
    decreases s.len() - from,
{
    match opening_tag(s, "<write"@, from) {
        None => Ok(Seq::empty()),
        Some((start, gt)) => match attribute(s.subrange(start, gt + 1), "path"@) {
            None => Err("<write> missing path attribute"@),
            Some(path) => match crate::text::find_from(s, "</write>"@, gt + 1) {
                None => Ok(Seq::empty()),
                Some(end) => {
                    let next = end + "</write>"@.len();
                    if from < next <= s.len() {
                        with_first(
                            Located {
                                offset: start,
                                action: ActionModel::Write {
                                    path: crate::xml::unescaped(path),
                                    content: crate::xml::unescaped(s.subrange(gt + 1, end)),
                                },
                            },
                            write_actions(s, next),
                        )
                    } else {
                        Ok(Seq::empty())
                    }
                },
            },
        },
    }
}

/// The status that a `<finish>` tag names: success where it names none.
pub open spec fn finish_status(named: Option<Seq<char>>) -> Result<TaskStatus, Seq<char>> {
    match named {
        None => Ok(TaskStatus::Success),
        Some(n) => if n == "Success"@ {
            Ok(TaskStatus::Success)
        } else if n == "Failed"@ {
            Ok(TaskStatus::Failed)
        } else {
            Err("unsupported finish status: "@ + n)
        },
    }
}

/// The `<finish>` actions from `from` on; a status that is neither `Success`
/// nor `Failed` is refused.
pub open spec fn finish_actions(s: Seq<char>, from: int) -> Result<Seq<Located>, Seq<char>>
    decreases s.len() - from,
{
    match opening_tag(s, "<finish"@, from) {
        None => Ok(Seq::empty()),
        Some((start, gt)) => match finish_status(
            attribute(s.subrange(start, gt + 1), "status"@),
        ) {
            Err(m) => Err(m),
            Ok(status) => match crate::text::find_from(s, "</finish>"@, gt + 1) {
                None => Ok(Seq::empty()),
                Some(end) => {
                    let next = end + "</finish>"@.len();
                    if from < next <= s.len() {
                        with_first(
                            Located {
                                offset: start,
                                action: ActionModel::Finish {
                                    status,
                                    reason: crate::xml::unescaped(
                                        crate::text::trimmed(s.subrange(gt + 1, end)),
                                    ),
                                },
                            },
                            finish_actions(s, next),
                        )
                    } else {
                        Ok(Seq::empty())
                    }
                },
            },
        },
    }
}

/// The actions of a reply in the order of their tags, or why it is refused.
pub open spec fn actions_of(s: Seq<char>) -> Result<Seq<ActionModel>, Seq<char>> {
    match write_actions(s, 0) {
        Err(m) => Err(m),
        Ok(writes) => match finish_actions(s, 0) {
            Err(m) => Err(m),
            Ok(finishes) => Ok(
                crate::order::sorted(execute_actions(s, 0) + writes + finishes).map_values(
                    |l: Located| l.action,
                ),
            ),
        },
    }
}

fn collect_execute_actions(cs: &Vec<char>, out: &mut Vec<Found>)
    ensures
        found_views(final(out)@) == found_views(old(out)@) + execute_actions(cs@, 0),
{
    let open = chars_of("<execute>");
    let close = chars_of("</execute>");
    let mut cursor: usize = 0;
    let ghost whole = found_views(out@) + execute_actions(cs@, 0);
    proof {
        reveal_strlit("<execute>");
        reveal_strlit("</execute>");
    }
    loop
        invariant
            open@ == "<execute>"@,
            close@ == "</execute>"@,
            open@.len() > 0,
            close@.len() > 0,
            cursor <= cs@.len(),
            whole == found_views(old(out)@) + execute_actions(cs@, 0),
            whole == found_views(out@) + execute_actions(cs@, cursor as int),
        decreases cs@.len() - cursor,
    {
        let start: usize = match find_chars(cs.as_slice(), open.as_slice(), cursor) {
            None => {
                proof {
                    assert(whole =~= found_views(out@));
                }
                return ;
            },
            Some(i) => i,
        };
        proof {
            assert(start + open@.len() <= cs.len());
        }
        let body: usize = start + open.len();
        let end: usize = match find_chars(cs.as_slice(), close.as_slice(), body) {
            None => {
                proof {
                    assert(whole =~= found_views(out@));
                }
                return ;
            },
            Some(i) => i,
        };
        proof {
            assert(end + close@.len() <= cs.len());
        }
        let raw = text_between(cs.as_slice(), body, end);
        let trimmed = trim(raw.as_str());
        let command = unescape_xml(trimmed.as_str());
        let next: usize = end + close.len();
        let ghost rest = execute_actions(cs@, next as int);
        if !is_empty_text(command.as_str()) {
            let ghost before = found_views(out@);
            let item = Found { offset: start, action: LlmAction::Execute(command) };
            let ghost head = item@;
            out.push(item);
            proof {
                assert(found_views(out@) =~= before.push(head));
                assert(before + (seq![head] + rest) =~= before.push(head) + rest);
            }
        }
        cursor = next;
    }
}

/// `acc` and then what `rest` holds, or the refusal in `rest`.
spec fn extended(acc: Seq<Located>, rest: Result<Seq<Located>, Seq<char>>) -> Result<
    Seq<Located>,
    Seq<char>,
> {
    match rest {
        Ok(r) => Ok(acc + r),
        Err(m) => Err(m),
    }
}

proof fn lemma_extended_push(
    acc: Seq<Located>,
    head: Located,
    rest: Result<Seq<Located>, Seq<char>>,
)
    ensures
        extended(acc, with_first(head, rest)) == extended(acc.push(head), rest),
{
    if let Ok(r) = rest {
        assert(acc + (seq![head] + r) =~= acc.push(head) + r);
    }
}

fn collect_write_actions(cs: &Vec<char>, out: &mut Vec<Found>) -> (r: Result<(), AdapterError>)
    ensures
        match r {
            Ok(_) => extended(found_views(old(out)@), write_actions(cs@, 0)) == Ok::<
                Seq<Located>,
                Seq<char>,
            >(found_views(final(out)@)),
            Err(e) => e matches AdapterError::InvalidAction(m) && write_actions(cs@, 0) == Err::<
                Seq<Located>,
                Seq<char>,
            >(m@),
        },
{
    let open = chars_of("<write");
    let gt_mark = chars_of(">");
    let close = chars_of("</write>");
    let mut cursor: usize = 0;
    let ghost whole = extended(found_views(out@), write_actions(cs@, 0));
    proof {
        reveal_strlit("<write");
        reveal_strlit("</write>");
        reveal_strlit(">");
    }
    loop
        invariant
            open@ == "<write"@,
            gt_mark@ == ">"@,
            close@ == "</write>"@,
            open@.len() > 0,
            gt_mark@.len() == 1,
            close@.len() > 0,
            cursor <= cs@.len(),
            whole == extended(found_views(old(out)@), write_actions(cs@, 0)),
            whole == extended(found_views(out@), write_actions(cs@, cursor as int)),
        decreases cs@.len() - cursor,
    {
        let ghost acc = found_views(out@);
        let start: usize = match find_chars(cs.as_slice(), open.as_slice(), cursor) {
            None => {
                proof {
                    assert(acc + Seq::<Located>::empty() =~= acc);
                }
                return Ok(());
            },
            Some(i) => i,
        };
        let gt: usize = match find_chars(cs.as_slice(), gt_mark.as_slice(), start) {
            None => {
                proof {
                    assert(acc + Seq::<Located>::empty() =~= acc);
                }
                return Ok(());
            },
            Some(i) => i,
        };
        proof {
            assert(gt + 1 <= cs.len());
        }
        let tag = text_between(cs.as_slice(), start, gt + 1);
        let path = match attr_value(tag.as_str(), "path") {
            None => {
                return Err(AdapterError::InvalidAction(owned("<write> missing path attribute")));
            },
            Some(p) => p,
        };
        let end: usize = match find_chars(cs.as_slice(), close.as_slice(), gt + 1) {
            None => {
                proof {
                    assert(acc + Seq::<Located>::empty() =~= acc);
                }
                return Ok(());
            },
            Some(i) => i,
        };
        proof {
            assert(end + close@.len() <= cs.len());
        }
        let raw = text_between(cs.as_slice(), gt + 1, end);
        let item = Found {
            offset: start,
            action: LlmAction::Write {
                path: unescape_xml(path.as_str()),
                content: unescape_xml(raw.as_str()),
            },
        };
        let ghost head = item@;
        let next: usize = end + close.len();
        out.push(item);
        proof {
            assert(found_views(out@) =~= acc.push(head));
            lemma_extended_push(acc, head, write_actions(cs@, next as int));
        }
        cursor = next;
    }
}

fn collect_finish_actions(cs: &Vec<char>, out: &mut Vec<Found>) -> (r: Result<(), AdapterError>)
    ensures
        match r {
            Ok(_) => extended(found_views(old(out)@), finish_actions(cs@, 0)) == Ok::<
                Seq<Located>,
                Seq<char>,
            >(found_views(final(out)@)),
            Err(e) => e matches AdapterError::InvalidAction(m) && finish_actions(cs@, 0) == Err::<
                Seq<Located>,
                Seq<char>,
            >(m@),
        },
{
    let open = chars_of("<finish");
    let gt_mark = chars_of(">");
    let close = chars_of("</finish>");
    let mut cursor: usize = 0;
    let ghost whole = extended(found_views(out@), finish_actions(cs@, 0));
    proof {
        reveal_strlit("<finish");
        reveal_strlit("</finish>");
        reveal_strlit(">");
    }
    loop
        invariant
            open@ == "<finish"@,
            gt_mark@ == ">"@,
            close@ == "</finish>"@,
            open@.len() > 0,
            gt_mark@.len() == 1,
            close@.len() > 0,
            cursor <= cs@.len(),
            whole == extended(found_views(old(out)@), finish_actions(cs@, 0)),
            whole == extended(found_views(out@), finish_actions(cs@, cursor as int)),
        decreases cs@.len() - cursor,
    {
        let ghost acc = found_views(out@);
        let start: usize = match find_chars(cs.as_slice(), open.as_slice(), cursor) {
            None => {
                proof {
                    assert(acc + Seq::<Located>::empty() =~= acc);
                }
                return Ok(());
            },
            Some(i) => i,
        };
        let gt: usize = match find_chars(cs.as_slice(), gt_mark.as_slice(), start) {
            None => {
                proof {
                    assert(acc + Seq::<Located>::empty() =~= acc);
                }
                return Ok(());
            },
            Some(i) => i,
        };
        proof {
            assert(gt + 1 <= cs.len());
        }
        let tag = text_between(cs.as_slice(), start, gt + 1);
        let status = match attr_value(tag.as_str(), "status") {
            None => TaskStatus::Success,
            Some(named) => {
                if same_text(named.as_str(), "Success") {
                    TaskStatus::Success
                } else if same_text(named.as_str(), "Failed") {
                    TaskStatus::Failed
                } else {
                    return Err(
                        AdapterError::InvalidAction(
                            cat("unsupported finish status: ", named.as_str()),
                        ),
                    );
                }
            },
        };
        let end: usize = match find_chars(cs.as_slice(), close.as_slice(), gt + 1) {
            None => {
                proof {
                    assert(acc + Seq::<Located>::empty() =~= acc);
                }
                return Ok(());
            },
            Some(i) => i,
        };
        proof {
            assert(end + close@.len() <= cs.len());
        }
        let raw = text_between(cs.as_slice(), gt + 1, end);
        let trimmed = trim(raw.as_str());
        let item = Found {
            offset: start,
            action: LlmAction::Finish { status, reason: unescape_xml(trimmed.as_str()) },
        };
        let ghost head = item@;
        let next: usize = end + close.len();
        out.push(item);
        proof {
            assert(found_views(out@) =~= acc.push(head));
            lemma_extended_push(acc, head, finish_actions(cs@, next as int));
        }
        cursor = next;
    }
}

/// Reads the actions out of a model's reply, in the order of their tags.
pub fn parse_actions(input: &str) -> (r: Result<Vec<LlmAction>, AdapterError>)
    ensures
        match r {
            Ok(actions) => actions_of(input@) == Ok::<Seq<ActionModel>, Seq<char>>(
                action_models(actions@),
            ),
            Err(e) => e matches AdapterError::InvalidAction(m) && actions_of(input@) == Err::<
                Seq<ActionModel>,
                Seq<char>,
            >(m@),
        },
{
    let cs = chars_of(input);
    let mut found: Vec<Found> = Vec::new();
    proof {
        assert(found_views(found@) =~= Seq::<Located>::empty());
    }
    collect_execute_actions(&cs, &mut found);
    proof {
        assert(found_views(found@) =~= execute_actions(input@, 0));
    }
    collect_write_actions(&cs, &mut found)?;
    collect_finish_actions(&cs, &mut found)?;
    proof {
        crate::order::lemma_sorted_map(found@, |f: Found| f@);
    }
    let ghost all = found_views(found@);
    let mut rest = sort_stable(found);
    let ghost ordered = rest@;
    let mut out: Vec<LlmAction> = Vec::new();
    while rest.len() > 0
        invariant
            out@.len() + rest@.len() == ordered.len(),
            rest@ == ordered.skip(out@.len() as int),
            forall|i: int| 0 <= i < out@.len() ==> (#[trigger] out@[i]) == ordered[i].action,
        decreases rest.len(),
    {
        let ghost n = out@.len() as int;
        let item = rest.remove(0);
        proof {
            assert(item == ordered[n]);
            assert(rest@ =~= ordered.skip(n + 1));
        }
        out.push(item.action);
    }
    proof {
        let want = crate::order::sorted(all).map_values(|l: Located| l.action);
        assert(found_views(ordered) == crate::order::sorted(all));
        assert forall|i: int| 0 <= i < out@.len() implies action_models(out@)[i] == want[i] by {
            assert(found_views(ordered)[i] == ordered[i]@);
            assert(out@[i] == ordered[i].action);
        }
        assert(action_models(out@) =~= want);
    }
    Ok(out)
}

/// How far the splitting of a command line has come.
pub struct Tokens {
    pub done: Seq<Seq<char>>,
    pub cur: Seq<char>,
    pub in_quotes: bool,
    pub had_quoted: bool,
}

/// The splitting after one more character: white space outside quotes ends a
/// word, a double quote opens or closes a quoted part, every other character
/// belongs to the word. Backslashes, line breaks and nulls are refused.
pub open spec fn token_step(t: Tokens, c: char) -> Result<Tokens, Seq<char>> {
    if c == '\\' {
        Err("backslash escapes are not supported in <execute> payloads"@)
    } else if c == '\n' || c == '\r' || c == '\0' {
        Err("control character "@ + crate::text::debug_char_text(c) + " in <execute> payload"@)
    } else if c == '"' {
        Ok(Tokens { in_quotes: !t.in_quotes, had_quoted: true, ..t })
    } else if crate::text::is_space(c) && !t.in_quotes {
        if t.cur.len() > 0 || t.had_quoted {
            Ok(Tokens { done: t.done.push(t.cur), cur: Seq::empty(), had_quoted: false, ..t })
        } else {
            Ok(t)
        }
    } else {
        Ok(Tokens { cur: t.cur.push(c), ..t })
    }
}

/// The splitting after all of `s`.
pub open spec fn tokens_after(s: Seq<char>) -> Result<Tokens, Seq<char>>
    decreases s.len(),
{
    if s.len() == 0 {
        Ok(Tokens { done: Seq::empty(), cur: Seq::empty(), in_quotes: false, had_quoted: false })
    } else {
        match tokens_after(s.drop_last()) {
            Err(m) => Err(m),
            Ok(t) => token_step(t, s.last()),
        }
    }
}

/// The words of a command line, or why it is refused.
pub open spec fn words_of(s: Seq<char>) -> Result<Seq<Seq<char>>, Seq<char>> {
    match tokens_after(s) {
        Err(m) => Err(m),
        Ok(t) => if t.in_quotes {
            Err("unmatched double quote in <execute> payload"@)
        } else if t.cur.len() > 0 || t.had_quoted {
            Ok(t.done.push(t.cur))
        } else {
            Ok(t.done)
        },
    }
}

proof fn lemma_token_error_persists(s: Seq<char>, n: int)
    requires
        0 <= n <= s.len(),
        tokens_after(s.take(n)) is Err,
    ensures
        tokens_after(s) == tokens_after(s.take(n)),
    decreases s.len() - n,
{
    if n < s.len() {
        assert(s.take(n + 1).drop_last() =~= s.take(n));
        lemma_token_error_persists(s, n + 1);
    } else {
        assert(s.take(n) =~= s);
    }
}

fn tokenize_command(command: &str) -> (r: Result<Vec<String>, AdapterError>)
    ensures
        match r {
            Ok(words) => words_of(command@) == Ok::<Seq<Seq<char>>, Seq<char>>(
                crate::text::texts(words@),
            ),
            Err(e) => e matches AdapterError::InvalidAction(m) && words_of(command@) == Err::<
                Seq<Seq<char>>,
                Seq<char>,
            >(m@),
        },
{
    let cs = chars_of(command);
    let mut out: Vec<String> = Vec::new();
    let mut cur: String = String::new();
    let mut cur_len: usize = 0;
    let mut in_quotes = false;
    let mut had_quoted = false;
    let mut i: usize = 0;
    proof {
        assert(crate::text::texts(out@) =~= Seq::<Seq<char>>::empty());
        assert(cur@ =~= Seq::<char>::empty());
    }
    while i < cs.len()
        invariant
            i <= cs.len(),
            cs@ == command@,
            cur_len == cur@.len(),
            cur_len <= i,
            tokens_after(command@.take(i as int)) == Ok::<Tokens, Seq<char>>(
                Tokens {
                    done: crate::text::texts(out@),
                    cur: cur@,
                    in_quotes,
                    had_quoted,
                },
            ),
        decreases cs.len() - i,
    {
        let c = cs[i];
        let ghost before = crate::text::texts(out@);
        proof {
            assert(command@.take(i + 1).drop_last() =~= command@.take(i as int));
            assert(command@.take(i + 1).last() == c);
        }
        if c == '\\' {
            proof {
                lemma_token_error_persists(command@, i + 1);
            }
            return Err(
                AdapterError::InvalidAction(
                    owned("backslash escapes are not supported in <execute> payloads"),
                ),
            );
        }
        if c == '\n' || c == '\r' || c == '\0' {
            proof {
                lemma_token_error_persists(command@, i + 1);
            }
            let quoted = debug_of_char(c);
            return Err(
                AdapterError::InvalidAction(
                    cat3("control character ", quoted.as_str(), " in <execute> payload"),
                ),
            );
        }
        if c == '"' {
            in_quotes = !in_quotes;
            had_quoted = true;
        } else if c.is_whitespace() && !in_quotes {
            if cur_len > 0 || had_quoted {
                let ghost word = cur@;
                out.push(cur);
                cur = String::new();
                cur_len = 0;
                had_quoted = false;
                proof {
                    assert(crate::text::texts(out@) =~= before.push(word));
                    assert(cur@ =~= Seq::<char>::empty());
                }
            }
        } else {
            cur.push(c);
            cur_len = cur_len + 1;
        }
        i = i + 1;
    }
    proof {
        assert(command@.take(command@.len() as int) =~= command@);
    }
    if in_quotes {
        return Err(
            AdapterError::InvalidAction(owned("unmatched double quote in <execute> payload")),
        );
    }
    if cur_len > 0 || had_quoted {
        let ghost before = crate::text::texts(out@);
        let ghost word = cur@;
        out.push(cur);
        proof {
            assert(crate::text::texts(out@) =~= before.push(word));
        }
    }
    Ok(out)
}

/// The command that the body of an `<execute>` tag asks for, or why it is
/// refused.
pub open spec fn action_command(body: Seq<char>) -> Result<CommandModel, Seq<char>> {
    let line = crate::text::trimmed(body);
    if line.len() == 0 {
        Err("<execute> body is empty"@)
    } else {
        match words_of(line) {
            Err(m) => Err(m),
            Ok(words) => if words.len() == 0 {
                Err("<execute> body has no program token"@)
            } else {
                Ok(
                    CommandModel {
                        program: words[0],
                        args: words.skip(1),
                        cwd: None,
                        reads: Seq::empty(),
                        writes: Seq::empty(),
                    },
                )
            },
        }
    }
}

/// Makes a command out of the body of an `<execute>` tag. There is no shell:
/// the words are split at white space, with double quotes around those that
/// hold spaces, and everything else is taken literally.
pub fn parse_action_command(command: &str) -> (r: Result<CommandSpec, AdapterError>)
    ensures
        match r {
            Ok(c) => action_command(command@) == Ok::<CommandModel, Seq<char>>(c@),
            Err(e) => e matches AdapterError::InvalidAction(m) && action_command(command@) == Err::<
                CommandModel,
                Seq<char>,
            >(m@),
        },
{
    let line = trim(command);
    if is_empty_text(line.as_str()) {
        return Err(AdapterError::InvalidAction(owned("<execute> body is empty")));
    }
    let mut words = tokenize_command(line.as_str())?;
    let ghost all = crate::text::texts(words@);
    if words.len() == 0 {
        return Err(AdapterError::InvalidAction(owned("<execute> body has no program token")));
    }
    let program = words.remove(0);
    let c = CommandSpec { program, args: words, cwd: None, reads: Vec::new(), writes: Vec::new() };
    proof {
        assert(c@.program == all[0]);
        assert(c@.args =~= all.skip(1));
        assert(c@.reads =~= Seq::<Seq<char>>::empty());
        assert(c@.writes =~= Seq::<Seq<char>>::empty());
    }
    Ok(c)
}

/// Why a path that an action names is refused, where it is: it is empty,
/// absolute, relative to a home directory, or climbs with `..`.
pub open spec fn action_path_refusal(p: Seq<char>) -> Option<Seq<char>> {
    if p.len() == 0 {
        Some("action path is empty"@)
    } else if p[0] == '/' || p[0] == '\\' {
        Some("action path is absolute: "@ + p)
    } else if p[0] == '~' {
        Some("action path is home-relative: "@ + p)
    } else if crate::host_path::path_parts(p).contains(".."@) {
        Some("action path contains parent-dir component: "@ + p)
    } else {
        None
    }
}

/// Where a path that an action names points: its normal form below the
/// working directory.
pub open spec fn action_target(workdir: Seq<char>, p: Seq<char>) -> Seq<char> {
    crate::host_path::normalized(crate::host_path::joined(workdir, p))
}

/// The fence for paths that actions name. Returns the destination below the
/// working directory, or why the path is refused. Symbolic links are not
/// looked at here.
pub fn validate_action_path(workdir: &str, raw: &str) -> (r: Result<String, String>)
    ensures
        match r {
            Ok(p) => action_path_refusal(raw@) is None && p@ == action_target(workdir@, raw@)
                && crate::host_path::is_under(p@, crate::host_path::normalized(workdir@)),
            Err(m) => action_path_refusal(raw@) == Some(m@),
        },
{
    if is_empty_text(raw) {
        return Err(owned("action path is empty"));
    }
    if is_absolute(raw) || begins_with_char(raw, '\\') {
        return Err(cat("action path is absolute: ", raw));
    }
    if begins_with_char(raw, '~') {
        return Err(cat("action path is home-relative: ", raw));
    }
    let parts = components(raw);
    let ghost all = crate::host_path::path_parts(raw@);
    if crate::text::text_in("..", &parts) {
        return Err(cat("action path contains parent-dir component: ", raw));
    }
    proof {
        assert forall|i: int| 0 <= i < all.len() implies #[trigger] all[i] != ".."@ by {
            assert(all.contains(all[i]));
        }
        crate::host_path::lemma_join_stays_below(workdir@, raw@);
    }
    let workdir_norm = normalize_path(workdir);
    let whole = join_path(workdir, raw);
    let target = normalize_path(whole.as_str());
    if !path_starts_with(target.as_str(), workdir_norm.as_str()) {
        return Err(cat("action path escapes workdir: ", raw));
    }
    Ok(target)
}

/// Whether a write may go on, and where to.
#[derive(Debug)]
pub enum WriteDecision {
    Refuse(AdapterError),
    /// Make sure that the directory of this path exists, and find out where it
    /// and the working directory really are.
    Resolve(String),
}

/// What to do first, and what then.
#[derive(Debug)]
pub struct WritePlan {
    pub effects: Vec<Effect>,
    pub decision: WriteDecision,
}

/// Decides whether a write of a task may go on: the step is counted, the task
/// must not be blocked, the path must stay below the working directory, and
/// the manifest must allow it.
pub fn apply_write(task: &mut Task, tasks: &TaskTable, path: &str) -> (r: WritePlan)
    ensures
        old(task).steps_used >= old(task).manifest.max_steps ==> final(task)@ == old(task)@
            && r.effects@.len() == 0 && (r.decision matches WriteDecision::Refuse(e) && e
            == AdapterError::MaxStepsExceeded(old(task).manifest.max_steps)),
        old(task).steps_used < old(task).manifest.max_steps ==> {
            let id = old(task).id;
            let target = action_target(old(task)@.workdir, path@);
            let allowed = old(task)@.manifest.allows(target, AccessType::Write);
            &&& final(task)@ == crate::execution::stepped(old(task)@)
            &&& if !tasks@.dom().contains(id.0) {
                r.effects@.len() == 0 && (r.decision matches WriteDecision::Refuse(e) && e
                    == AdapterError::Transaction(TransactionError::UnknownTask(id)))
            } else if tasks@[id.0].blocked {
                r.effects@.len() == 0 && (r.decision matches WriteDecision::Refuse(e) && e
                    == AdapterError::Transaction(TransactionError::FilesystemBlocked(id)))
            } else {
                match action_path_refusal(path@) {
                    Some(reason) => crate::execution::effect_models(r.effects@)
                        == crate::execution::denial(reason) && (
                    r.decision matches WriteDecision::Refuse(e) && (
                    e matches AdapterError::Violation(m) && m@ == reason)),
                    None => if allowed {
                        crate::execution::effect_models(r.effects@) == seq![
                            crate::execution::access_event(target, AccessType::Write, true),
                        ] && (r.decision matches WriteDecision::Resolve(p) && p@ == target)
                    } else {
                        crate::execution::effect_models(r.effects@) == seq![
                            crate::execution::access_event(target, AccessType::Write, false),
                        ] + crate::execution::denial("write denied: "@ + target) && (
                        r.decision matches WriteDecision::Refuse(e) && (
                        e matches AdapterError::Violation(m) && m@ == "write denied: "@ + target))
                    },
                }
            }
        },
{
    let mut effects: Vec<Effect> = Vec::new();
    proof {
        assert(crate::execution::effect_models(effects@) =~= Seq::<EffectModel>::empty());
    }
    match task.record_tool_call() {
        Ok(_) => {},
        Err(_) => {
            return WritePlan {
                effects,
                decision: WriteDecision::Refuse(
                    AdapterError::MaxStepsExceeded(task.manifest.max_steps),
                ),
            };
        },
    }
    match ensure_task_fs_unblocked(tasks, task.id) {
        Ok(_) => {},
        Err(err) => {
            return WritePlan {
                effects,
                decision: WriteDecision::Refuse(AdapterError::Transaction(err)),
            };
        },
    }
    let target = match validate_action_path(task.workdir.as_str(), path) {
        Ok(p) => p,
        Err(reason) => {
            push_denial(&mut effects, reason.as_str());
            proof {
                assert(crate::execution::effect_models(effects@) =~= crate::execution::denial(
                    reason@,
                ));
            }
            return WritePlan {
                effects,
                decision: WriteDecision::Refuse(AdapterError::Violation(reason)),
            };
        },
    };
    let allowed = task.manifest.is_allowed(target.as_str(), AccessType::Write);
    effects.push(
        Effect::Log(
            TaskEvent::FileAccess {
                path: owned(target.as_str()),
                access: AccessType::Write,
                allowed,
            },
        ),
    );
    proof {
        assert(crate::execution::effect_models(effects@) =~= seq![
            crate::execution::access_event(target@, AccessType::Write, allowed),
        ]);
    }
    if !allowed {
        let reason = cat("write denied: ", target.as_str());
        push_denial(&mut effects, reason.as_str());
        return WritePlan {
            effects,
            decision: WriteDecision::Refuse(AdapterError::Violation(reason)),
        };
    }
    WritePlan { effects, decision: WriteDecision::Resolve(target) }
}

/// Where the contents of a write go, or why it is refused after all.
#[derive(Debug)]
pub enum WriteTarget {
    Refuse(AdapterError),
    File(String),
}

/// Decides where a write really goes, once the links on the way have been
/// followed: `parent_real` is the real directory of `resolved`,
/// `workdir_real` the real working directory.
pub fn resolve_write(resolved: &str, parent_real: &str, workdir_real: &str) -> (r: (
    Vec<Effect>,
    WriteTarget,
))
    ensures
        ({
            let reason = "write path escapes workdir via symlink: "@ + resolved@ + " -> "@
                + parent_real@;
            if !crate::host_path::is_under(parent_real@, workdir_real@) {
                crate::execution::effect_models(r.0@) == crate::execution::denial(reason) && (
                r.1 matches WriteTarget::Refuse(e) && (e matches AdapterError::Violation(m) && m@
                    == reason))
            } else {
                r.0@.len() == 0 && match crate::host_path::name_of(resolved@) {
                    None => r.1 matches WriteTarget::Refuse(e) && (
                    e matches AdapterError::InvalidAction(m) && m@
                        == "write destination has no file name: "@ + resolved@),
                    Some(name) => r.1 matches WriteTarget::File(p) && p@
                        == crate::host_path::joined(parent_real@, name),
                }
            }
        }),
{
    let mut effects: Vec<Effect> = Vec::new();
    proof {
        assert(crate::execution::effect_models(effects@) =~= Seq::<EffectModel>::empty());
    }
    if !path_starts_with(parent_real, workdir_real) {
        let mut reason = cat3("write path escapes workdir via symlink: ", resolved, " -> ");
        reason.append(parent_real);
        push_denial(&mut effects, reason.as_str());
        proof {
            assert(crate::execution::effect_models(effects@) =~= crate::execution::denial(reason@));
        }
        return (effects, WriteTarget::Refuse(AdapterError::Violation(reason)));
    }
    match file_name(resolved) {
        None => (
            effects,
            WriteTarget::Refuse(
                AdapterError::InvalidAction(
                    cat("write destination has no file name: ", resolved),
                ),
            ),
        ),
        Some(name) => (effects, WriteTarget::File(join_path(parent_real, name.as_str()))),
    }
}

/// The name under which the contents of a file are written before they take
/// its place.
pub fn temp_name(file_name: &str, id: &str) -> (r: String)
    ensures
        r@ == "."@ + file_name@ + ".v9r-tmp-"@ + id@,
{
    let mut r = cat3(".", file_name, ".v9r-tmp-");
    r.append(id);
    r
}

/// The error stands for a denied action.
pub open spec fn is_violation(e: AdapterError) -> bool {
    match e {
        AdapterError::Violation(_) => true,
        AdapterError::Execution(ExecutionError::Violation(_)) => true,
        _ => false,
    }
}

/// The error stands for a task without steps left.
pub open spec fn is_out_of_steps(e: AdapterError) -> bool {
    match e {
        AdapterError::MaxStepsExceeded(_) => true,
        AdapterError::Execution(ExecutionError::MaxStepsExceeded(_)) => true,
        _ => false,
    }
}

pub fn is_security_violation(err: &AdapterError) -> (r: bool)
    ensures
        r == is_violation(*err),
{
    match err {
        AdapterError::Violation(_) => true,
        AdapterError::Execution(ExecutionError::Violation(_)) => true,
        _ => false,
    }
}

pub fn is_max_steps_error(err: &AdapterError) -> (r: bool)
    ensures
        r == is_out_of_steps(*err),
{
    match err {
        AdapterError::MaxStepsExceeded(_) => true,
        AdapterError::Execution(ExecutionError::MaxStepsExceeded(_)) => true,
        _ => false,
    }
}

/// Every destination that the fence lets through lies below the working
/// directory.
pub proof fn lemma_action_target_contained(workdir: Seq<char>, p: Seq<char>)
    requires
        action_path_refusal(p) is None,
    ensures
        crate::host_path::is_under(
            action_target(workdir, p),
            crate::host_path::normalized(workdir),
        ),
{
    let all = crate::host_path::path_parts(p);
    assert forall|i: int| 0 <= i < all.len() implies #[trigger] all[i] != ".."@ by {
        assert(all.contains(all[i]));
    }
    crate::host_path::lemma_join_stays_below(workdir, p);
}

/// A file that is written stands in the real working directory, or in a real
/// directory below it: at its parent, under the name of its destination.
pub proof fn lemma_written_file_is_contained(
    resolved: Seq<char>,
    parent_real: Seq<char>,
    workdir_real: Seq<char>,
)
    requires
        crate::host_path::is_under(parent_real, workdir_real),
    ensures
        crate::host_path::name_of(resolved) matches Some(name) ==> crate::host_path::is_under(
            crate::host_path::joined(parent_real, name),
            workdir_real,
        ),
{
    if let Some(name) = crate::host_path::name_of(resolved) {
        reveal_strlit("/");
        crate::host_path::lemma_parts_shape(resolved);
        let parts = crate::host_path::path_parts(resolved);
        let top = crate::host_path::path_parts(workdir_real);
        assert(name == parts[parts.len() - 1]);
        assert(!name.contains('/'));
        assert(crate::host_path::is_rooted(name) ==> name.contains(name[0]));
        let whole = crate::host_path::joined(parent_real, name);
        let from = crate::host_path::path_parts(parent_real);
        if parent_real.len() > 0 {
            crate::host_path::lemma_joined_parts(parent_real, name);
            let to = crate::host_path::path_parts(whole);
            assert(top =~= from.subrange(0, top.len() as int));
            assert(top =~= to.subrange(0, top.len() as int));
        } else {
            assert(parent_real =~= Seq::<char>::empty());
            crate::host_path::lemma_empty_has_no_parts();
            assert(top.len() == 0);
            assert(top =~= crate::host_path::path_parts(whole).subrange(0, 0));
        }
    }
}

/// The actions of a reply come in the order in which their tags stand in it.
pub proof fn lemma_actions_in_reply_order(s: Seq<char>)
    ensures
        (write_actions(s, 0) matches Ok(writes) && finish_actions(s, 0) matches Ok(finishes)) ==> {
            let ordered = crate::order::sorted(
                execute_actions(s, 0) + write_actions(s, 0)->Ok_0 + finish_actions(s, 0)->Ok_0,
            );
            &&& crate::order::in_order(ordered)
            &&& actions_of(s) == Ok::<Seq<ActionModel>, Seq<char>>(
                ordered.map_values(|l: Located| l.action),
            )
        },
{
    if write_actions(s, 0) is Ok && finish_actions(s, 0) is Ok {
        crate::order::lemma_sorted_in_order(
            execute_actions(s, 0) + write_actions(s, 0)->Ok_0 + finish_actions(s, 0)->Ok_0,
        );
    }
}

} // verus!
