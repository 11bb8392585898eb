//! What a task shows of itself: its limits, the files it may read, and what
//! has happened so far.

use vstd::prelude::*;

use crate::host_path::{file_name, normalize_path, path_before, resolve_task_path};
use crate::manifest::{Manifest, ManifestModel};
use crate::order::{sort_stable, Ordered, Ranked};
use crate::snapshot::EntryClass;
use crate::task::{Task, TaskStatus};
use crate::text::{cat, cat3, decimal_text, owned, same_text, text_in, utf8_text};
use crate::trace::TraceError;
use crate::xml::escape_xml;

verus! {

/// How much of a file is shown at most.
pub const DEFAULT_MAX_FILE_BYTES: u64 = 65536;

/// A file as a snapshot shows it.
#[derive(Clone, Debug, PartialEq, Eq)]
pub struct FileSnapshot {
    pub path: String,
    pub content: String,
    pub truncated: bool,
}

/// What a task shows of itself.
#[derive(Clone, Debug, PartialEq, Eq)]
pub struct TaskSnapshot {
    pub manifest: Manifest,
    pub status: TaskStatus,
    pub files: Vec<FileSnapshot>,
    pub execution_history: Vec<String>,
}

/// Why the context of a task could not be gathered.
#[derive(Clone, Debug, PartialEq, Eq)]
pub enum ContextError {
    Io { path: String, source: String },
    Trace(TraceError),
}

impl ContextError {
    /// The message shown for this error.
    pub open spec fn text(&self) -> Seq<char> {
        match self {
            ContextError::Io { path, source } => "context io at "@ + path@ + ": "@ + source@,
            ContextError::Trace(e) => "trace: "@ + e.text(),
        }
    }

    /// The message shown for this error.
    pub fn message(&self) -> (r: String)
        ensures
            r@ == self.text(),
    {
        match self {
            ContextError::Io { path, source } => {
                let mut r = cat3("context io at ", path.as_str(), ": ");
                r.append(source.as_str());
                r
            },
            ContextError::Trace(e) => {
                let t = e.message();
                cat("trace: ", t.as_str())
            },
        }
    }
}

/// The contents of a `FileSnapshot`.
pub struct FileView {
    pub path: Seq<char>,
    pub content: Seq<char>,
    pub truncated: bool,
}

impl View for FileSnapshot {
    type V = FileView;

    open spec fn view(&self) -> FileView {
        FileView { path: self.path@, content: self.content@, truncated: self.truncated }
    }
}

pub open spec fn file_views(s: Seq<FileSnapshot>) -> Seq<FileView> {
    s.map_values(|f: FileSnapshot| f@)
}

impl Ordered for FileView {
    open spec fn before(self, other: Self) -> bool {
        crate::host_path::path_lt(self.path, other.path)
    }
}

impl Ordered for FileSnapshot {
    open spec fn before(self, other: Self) -> bool {
        self@.before(other@)
    }
}

impl Ranked for FileSnapshot {
    fn comes_before(&self, other: &Self) -> (r: bool) {
        path_before(self.path.as_str(), other.path.as_str())
    }
}

/// One `<path>` line for each path.
pub open spec fn path_lines(paths: Seq<Seq<char>>) -> Seq<char>
    decreases paths.len(),
{
    if paths.len() == 0 {
        Seq::empty()
    } else {
        path_lines(paths.drop_last()) + ("      <path>"@ + crate::xml::escaped(paths.last())
            + "</path>\n"@)
    }
}

/// The paths between an opening and a closing tag.
pub open spec fn path_list(tag: Seq<char>, paths: Seq<Seq<char>>) -> Seq<char> {
    ("    <"@ + tag + ">\n"@) + path_lines(paths) + ("    </"@ + tag + ">\n"@)
}

/// One `<command>` line for each command.
pub open spec fn command_lines(commands: Seq<Seq<char>>) -> Seq<char>
    decreases commands.len(),
{
    if commands.len() == 0 {
        Seq::empty()
    } else {
        command_lines(commands.drop_last()) + ("      <command>"@ + crate::xml::escaped(
            commands.last(),
        ) + "</command>\n"@)
    }
}

/// The `<file>` element of one file.
pub open spec fn file_element(f: FileView) -> Seq<char> {
    "    <file path=\""@ + crate::xml::escaped(f.path) + "\""@ + (if f.truncated {
        " truncated=\"true\""@
    } else {
        ""@
    }) + ">"@ + crate::xml::escaped(f.content) + (if f.truncated {
        "\n[TRUNCATED]"@
    } else {
        ""@
    }) + "</file>\n"@
}

pub open spec fn file_elements(files: Seq<FileView>) -> Seq<char>
    decreases files.len(),
{
    if files.len() == 0 {
        Seq::empty()
    } else {
        file_elements(files.drop_last()) + file_element(files.last())
    }
}

/// One `<event>` line for each event.
pub open spec fn event_lines(events: Seq<Seq<char>>) -> Seq<char>
    decreases events.len(),
{
    if events.len() == 0 {
        Seq::empty()
    } else {
        event_lines(events.drop_last()) + ("    <event>"@ + crate::xml::escaped(events.last())
            + "</event>\n"@)
    }
}

/// The lines on the status and the limits.
pub open spec fn limit_lines(m: ManifestModel, status: TaskStatus) -> Seq<char> {
    ("    <status>"@ + crate::xml::escaped(crate::task::status_text(status)) + "</status>\n"@) + (
    "    <token_limit>"@ + crate::text::decimal(m.token_limit as nat) + "</token_limit>\n"@) + (
    "    <max_steps>"@ + crate::text::decimal(m.max_steps as nat) + "</max_steps>\n"@) + (
    "    <timeout_ms>"@ + crate::text::decimal(m.timeout_ms as nat) + "</timeout_ms>\n"@)
}

/// The whole context of a task.
pub open spec fn context_xml(
    m: ManifestModel,
    status: TaskStatus,
    files: Seq<FileView>,
    history: Seq<Seq<char>>,
) -> Seq<char> {
    "<task_context>\n"@ + "  <system_manifest>\n"@ + limit_lines(m, status) + path_list(
        "allow_read"@,
        m.allow_read,
    ) + path_list("allow_write"@, m.allow_write) + path_list(
        "mandatory_artifacts"@,
        m.mandatory_artifacts,
    ) + "    <allow_exec>\n"@ + command_lines(m.allow_exec) + "    </allow_exec>\n"@
        + "    <test_commands>\n"@ + command_lines(m.test_commands) + "    </test_commands>\n"@
        + "  </system_manifest>\n"@ + "  <environment_files>\n"@ + file_elements(files)
        + "  </environment_files>\n"@ + "  <execution_history>\n"@ + event_lines(history)
        + "  </execution_history>\n"@ + "</task_context>\n"@
}

fn tagged_line(open: &str, body: &str, close: &str) -> (r: String)
    ensures
        r@ == open@ + crate::xml::escaped(body@) + close@,
{
    let inner = escape_xml(body);
    cat3(open, inner.as_str(), close)
}

fn write_path_list(tag: &str, paths: &Vec<String>) -> (r: String)
    ensures
        r@ == path_list(tag@, crate::text::texts(paths@)),
{
    let ghost all = crate::text::texts(paths@);
    let mut lines: String = String::new();
    let mut i: usize = 0;
    while i < paths.len()
        invariant
            i <= paths.len(),
            all == crate::text::texts(paths@),
            lines@ == path_lines(all.take(i as int)),
        decreases paths.len() - i,
    {
        proof {
            assert(all.take(i + 1).drop_last() =~= all.take(i as int));
            assert(all.take(i + 1).last() == paths@[i as int]@);
        }
        let line = tagged_line("      <path>", paths[i].as_str(), "</path>\n");
        lines.append(line.as_str());
        i = i + 1;
    }
    proof {
        assert(all.take(all.len() as int) =~= all);
    }
    let open = cat3("    <", tag, ">\n");
    let close = cat3("    </", tag, ">\n");
    cat3(open.as_str(), lines.as_str(), close.as_str())
}

fn write_commands(commands: &Vec<String>) -> (r: String)
    ensures
        r@ == command_lines(crate::text::texts(commands@)),
{
    let ghost all = crate::text::texts(commands@);
    let mut lines: String = String::new();
    let mut i: usize = 0;
    while i < commands.len()
        invariant
            i <= commands.len(),
            all == crate::text::texts(commands@),
            lines@ == command_lines(all.take(i as int)),
        decreases commands.len() - i,
    {
        proof {
            assert(all.take(i + 1).drop_last() =~= all.take(i as int));
            assert(all.take(i + 1).last() == commands@[i as int]@);
        }
        let line = tagged_line("      <command>", commands[i].as_str(), "</command>\n");
        lines.append(line.as_str());
        i = i + 1;
    }
    proof {
        assert(all.take(all.len() as int) =~= all);
    }
    lines
}

fn write_events(events: &Vec<String>) -> (r: String)
    ensures
        r@ == event_lines(crate::text::texts(events@)),
{
    let ghost all = crate::text::texts(events@);
    let mut lines: String = String::new();
    let mut i: usize = 0;
    while i < events.len()
        invariant
            i <= events.len(),
            all == crate::text::texts(events@),
            lines@ == event_lines(all.take(i as int)),
        decreases events.len() - i,
    {
        proof {
            assert(all.take(i + 1).drop_last() =~= all.take(i as int));
            assert(all.take(i + 1).last() == events@[i as int]@);
        }
        let line = tagged_line("    <event>", events[i].as_str(), "</event>\n");
        lines.append(line.as_str());
        i = i + 1;
    }
    proof {
        assert(all.take(all.len() as int) =~= all);
    }
    lines
}

fn write_file(file: &FileSnapshot) -> (r: String)
    ensures
        r@ == file_element(file@),
{
    let mut out = tagged_line("    <file path=\"", file.path.as_str(), "\"");
    if file.truncated {
        out.append(" truncated=\"true\"");
    } else {
        out.append("");
    }
    out.append(">");
    let body = escape_xml(file.content.as_str());
    out.append(body.as_str());
    if file.truncated {
        out.append("\n[TRUNCATED]");
    } else {
        out.append("");
    }
    out.append("</file>\n");
    out
}

fn write_files(files: &Vec<FileSnapshot>) -> (r: String)
    ensures
        r@ == file_elements(file_views(files@)),
{
    let ghost all = file_views(files@);
    let mut out: String = String::new();
    let mut i: usize = 0;
    while i < files.len()
        invariant
            i <= files.len(),
            all == file_views(files@),
            out@ == file_elements(all.take(i as int)),
        decreases files.len() - i,
    {
        proof {
            assert(all.take(i + 1).drop_last() =~= all.take(i as int));
            assert(all.take(i + 1).last() == files@[i as int]@);
        }
        let element = write_file(&files[i]);
        out.append(element.as_str());
        i = i + 1;
    }
    proof {
        assert(all.take(all.len() as int) =~= all);
    }
    out
}

fn write_limits(manifest: &Manifest, status: TaskStatus) -> (r: String)
    ensures
        r@ == limit_lines(manifest@, status),
{
    let mut out = tagged_line("    <status>", status.text(), "</status>\n");
    let tokens = decimal_text(manifest.token_limit as u64);
    let line = cat3("    <token_limit>", tokens.as_str(), "</token_limit>\n");
    out.append(line.as_str());
    let steps = decimal_text(manifest.max_steps as u64);
    let line = cat3("    <max_steps>", steps.as_str(), "</max_steps>\n");
    out.append(line.as_str());
    let timeout = decimal_text(manifest.timeout_ms);
    let line = cat3("    <timeout_ms>", timeout.as_str(), "</timeout_ms>\n");
    out.append(line.as_str());
    out
}

impl TaskSnapshot {
    /// The snapshot as the text that a model is shown.
    pub fn to_xml(&self) -> (r: String)
        ensures
            r@ == context_xml(
                self.manifest@,
                self.status,
                file_views(self.files@),
                crate::text::texts(self.execution_history@),
            ),
    {
        let mut out = cat("<task_context>\n", "  <system_manifest>\n");
        let limits = write_limits(&self.manifest, self.status);
        out.append(limits.as_str());
        let list = write_path_list("allow_read", &self.manifest.allow_read);
        out.append(list.as_str());
        let list = write_path_list("allow_write", &self.manifest.allow_write);
        out.append(list.as_str());
        let list = write_path_list("mandatory_artifacts", &self.manifest.mandatory_artifacts);
        out.append(list.as_str());
        out.append("    <allow_exec>\n");
        let commands = write_commands(&self.manifest.allow_exec);
        out.append(commands.as_str());
        out.append("    </allow_exec>\n");
        out.append("    <test_commands>\n");
        let commands = write_commands(&self.manifest.test_commands);
        out.append(commands.as_str());
        out.append("    </test_commands>\n");
        out.append("  </system_manifest>\n");
        out.append("  <environment_files>\n");
        let files = write_files(&self.files);
        out.append(files.as_str());
        out.append("  </environment_files>\n");
        out.append("  <execution_history>\n");
        let events = write_events(&self.execution_history);
        out.append(events.as_str());
        out.append("  </execution_history>\n");
        out.append("</task_context>\n");
        out
    }

    /// The snapshot of a task, from the files and the history gathered for
    /// it.
    pub fn collect(task: &Task, files: Vec<FileSnapshot>, execution_history: Vec<String>) -> (r:
        TaskSnapshot)
        ensures
            r.manifest@ == task@.manifest,
            r.status == task.status,
            r.files == files,
            r.execution_history == execution_history,
    {
        TaskSnapshot {
            manifest: task.manifest.copy(),
            status: task.status,
            files,
            execution_history,
        }
    }
}

impl Task {
    /// The context of the task as the text that a model is shown, from the
    /// files and the history gathered for it.
    pub fn xml_snapshot(&self, files: Vec<FileSnapshot>, history: Vec<String>) -> (r: String)
        ensures
            r@ == context_xml(
                self@.manifest,
                self.status,
                file_views(files@),
                crate::text::texts(history@),
            ),
    {
        TaskSnapshot::collect(self, files, history).to_xml()
    }
}

/// How much of a file of the given length is kept.
pub open spec fn kept_len(len: u64, max_file_bytes: u64) -> int {
    if len < max_file_bytes {
        len as int
    } else {
        max_file_bytes as int
    }
}

/// The kept part of what was read of a file.
pub open spec fn kept_bytes(bytes: Seq<u8>, len: u64, max_file_bytes: u64) -> Seq<u8> {
    if bytes.len() > kept_len(len, max_file_bytes) {
        bytes.take(kept_len(len, max_file_bytes))
    } else {
        bytes
    }
}

fn has_null(bytes: &Vec<u8>) -> (r: bool)
    ensures
        r == bytes@.contains(0u8),
{
    let mut i: usize = 0;
    while i < bytes.len()
        invariant
            i <= bytes.len(),
            forall|j: int| 0 <= j < i ==> bytes@[j] != 0u8,
        decreases bytes.len() - i,
    {
        if bytes[i] == 0 {
            proof {
                assert(bytes@[i as int] == 0u8);
            }
            return true;
        }
        i = i + 1;
    }
    false
}

/// Makes text out of what was read of a file with the recorded length `len`,
/// at most `max_file_bytes` of it. A file that holds a null byte or is not
/// UTF-8 up to there is left out.
pub fn read_text_file(path: String, len: u64, max_file_bytes: u64, bytes: Vec<u8>) -> (r: Option<
    FileSnapshot,
>)
    requires
        kept_len(len, max_file_bytes) <= usize::MAX,
    ensures
        ({
            let kept = kept_bytes(bytes@, len, max_file_bytes);
            match r {
                Some(f) => !kept.contains(0u8) && vstd::utf8::valid_utf8(kept) && f@ == (FileView {
                    path: path@,
                    content: vstd::utf8::decode_utf8(kept),
                    truncated: bytes@.len() > kept_len(len, max_file_bytes),
                }),
                None => kept.contains(0u8) || !vstd::utf8::valid_utf8(kept),
            }
        }),
{
    let limit: usize = if len < max_file_bytes {
        len as usize
    } else {
        max_file_bytes as usize
    };
    let mut bytes = bytes;
    let ghost read = bytes@;
    let truncated = bytes.len() > limit;
    bytes.truncate(limit);
    let ghost kept = kept_bytes(read, len, max_file_bytes);
    proof {
        assert(bytes@ =~= kept);
    }
    if has_null(&bytes) {
        return None;
    }
    match utf8_text(bytes) {
        Ok(content) => Some(FileSnapshot { path, content, truncated }),
        Err(_) => None,
    }
}

/// What to do with a path that the collection of files has come to.
#[derive(Clone, Copy, Debug, PartialEq, Eq, Structural)]
pub enum CollectStep {
    Skip,
    ReadDir,
    ReadFile,
}

/// The step for a path of the given kind: directories are walked, regular
/// files read, except a trace.
pub open spec fn collect_step(path: Seq<char>, class: EntryClass) -> CollectStep {
    match class {
        EntryClass::Dir => CollectStep::ReadDir,
        EntryClass::File => if crate::host_path::name_of(path) == Some("trace.jsonl"@) {
            CollectStep::Skip
        } else {
            CollectStep::ReadFile
        },
        _ => CollectStep::Skip,
    }
}

/// What to do with a path of the given kind. Symbolic links and special files
/// are passed over.
pub fn classify_path(path: &str, class: EntryClass) -> (r: CollectStep)
    ensures
        r == collect_step(path@, class),
{
    match class {
        EntryClass::Dir => CollectStep::ReadDir,
        EntryClass::File => {
            match file_name(path) {
                Some(name) => {
                    if same_text(name.as_str(), "trace.jsonl") {
                        CollectStep::Skip
                    } else {
                        CollectStep::ReadFile
                    }
                },
                None => CollectStep::ReadFile,
            }
        },
        _ => CollectStep::Skip,
    }
}

/// Gathers the files that a task may read: paths still to look at, paths
/// looked at, and files found.
pub struct FileCollector {
    stack: Vec<String>,
    seen: Vec<String>,
    files: Vec<FileSnapshot>,
}

/// The contents of a `FileCollector`.
pub struct CollectorModel {
    pub stack: Seq<Seq<char>>,
    pub seen: Seq<Seq<char>>,
    pub files: Seq<FileView>,
}

impl View for FileCollector {
    type V = CollectorModel;

    closed spec fn view(&self) -> CollectorModel {
        CollectorModel {
            stack: crate::text::texts(self.stack@),
            seen: crate::text::texts(self.seen@),
            files: file_views(self.files@),
        }
    }
}

/// Where the paths of a manifest point.
pub open spec fn task_paths(workdir: Seq<char>, paths: Seq<Seq<char>>) -> Seq<Seq<char>> {
    Seq::new(paths.len(), |i: int| crate::host_path::task_path(workdir, paths[i]))
}

/// The normal form of the last path on the stack that has not been seen, with
/// the stack below it; `None` where there is no such path.
pub open spec fn next_unseen(stack: Seq<Seq<char>>, seen: Seq<Seq<char>>) -> Option<
    (Seq<char>, Seq<Seq<char>>),
>
    decreases stack.len(),
{
    if stack.len() == 0 {
        None
    } else {
        let path = crate::host_path::normalized(stack.last());
        if seen.contains(path) {
            next_unseen(stack.drop_last(), seen)
        } else {
            Some((path, stack.drop_last()))
        }
    }
}

impl FileCollector {
    /// Starts from the paths that the task's manifest allows to read.
    pub fn start(task: &Task) -> (r: FileCollector)
        ensures
            r@.stack == task_paths(task@.workdir, task@.manifest.allow_read),
            r@.seen.len() == 0,
            r@.files.len() == 0,
    {
        let mut stack: Vec<String> = Vec::new();
        let mut i: usize = 0;
        let ghost want = task_paths(task@.workdir, task@.manifest.allow_read);
        while i < task.manifest.allow_read.len()
            invariant
                i <= task.manifest.allow_read.len(),
                want == task_paths(task@.workdir, task@.manifest.allow_read),
                stack@.len() == i,
                forall|j: int| 0 <= j < i ==> (#[trigger] stack@[j])@ == want[j],
            decreases task.manifest.allow_read.len() - i,
        {
            stack.push(
                resolve_task_path(task.workdir.as_str(), task.manifest.allow_read[i].as_str()),
            );
            i = i + 1;
        }
        let r = FileCollector { stack, seen: Vec::new(), files: Vec::new() };
        proof {
            assert(r@.stack =~= want);
        }
        r
    }

    /// The next path to look at; it counts as seen from now on.
    pub fn next_path(&mut self) -> (r: Option<String>)
        ensures
            match r {
                Some(p) => next_unseen(old(self)@.stack, old(self)@.seen) == Some(
                    (p@, final(self)@.stack),
                ) && final(self)@.seen == old(self)@.seen.push(p@),
                None => next_unseen(old(self)@.stack, old(self)@.seen) is None
                    && final(self)@.stack.len() == 0 && final(self)@.seen == old(self)@.seen,
            },
            final(self)@.files == old(self)@.files,
    {
        while self.stack.len() > 0
            invariant
                next_unseen(old(self)@.stack, old(self)@.seen) == next_unseen(
                    self@.stack,
                    self@.seen,
                ),
                self@.seen == old(self)@.seen,
                self@.files == old(self)@.files,
            decreases self.stack.len(),
        {
            let ghost before = self@.stack;
            match self.stack.pop() {
                None => {},
                Some(raw) => {
                    let path = normalize_path(raw.as_str());
                    proof {
                        assert(self@.stack =~= before.drop_last());
                        assert(before.last() == raw@);
                    }
                    if !text_in(path.as_str(), &self.seen) {
                        let ghost was = self@.seen;
                        self.seen.push(owned(path.as_str()));
                        proof {
                            assert(self@.seen =~= was.push(path@));
                        }
                        return Some(path);
                    }
                },
            }
        }
        None
    }

    /// Adds an entry of a directory to the paths still to look at.
    pub fn push_path(&mut self, path: String)
        ensures
            final(self)@ == (CollectorModel {
                stack: old(self)@.stack.push(path@),
                ..old(self)@
            }),
    {
        let ghost added = path@;
        self.stack.push(path);
        proof {
            assert(self@.stack =~= old(self)@.stack.push(added));
        }
    }

    /// Keeps a file that was read.
    pub fn add_file(&mut self, file: FileSnapshot)
        ensures
            final(self)@ == (CollectorModel { files: old(self)@.files.push(file@), ..old(self)@ }),
    {
        let ghost added = file@;
        self.files.push(file);
        proof {
            assert(self@.files =~= old(self)@.files.push(added));
        }
    }

    /// The files that were kept, in the order of their paths.
    pub fn finish(self) -> (r: Vec<FileSnapshot>)
        ensures
            file_views(r@) == crate::order::sorted(self@.files),
    {
        proof {
            crate::order::lemma_sorted_map(self.files@, |f: FileSnapshot| f@);
        }
        sort_stable(self.files)
    }
}

/// No path is looked at twice: what `next_path` gives has not been seen.
pub proof fn lemma_next_is_new(stack: Seq<Seq<char>>, seen: Seq<Seq<char>>)
    ensures
        next_unseen(stack, seen) matches Some((path, rest)) ==> !seen.contains(path) && rest.len()
            < stack.len(),
    decreases stack.len(),
{
    if stack.len() > 0 && seen.contains(crate::host_path::normalized(stack.last())) {
        lemma_next_is_new(stack.drop_last(), seen);
    }
}

/// A step of a collection.
pub ghost enum CollectorStep {
    /// Asks for the next path.
    Next,
    /// Adds an entry of a directory.
    Entry { dir: Seq<char>, name: Seq<char> },
    /// Keeps a file.
    Keep(FileView),
}

/// What a step makes of a collection.
pub open spec fn collector_after(c: CollectorModel, step: CollectorStep) -> CollectorModel {
    match step {
        CollectorStep::Next => match next_unseen(c.stack, c.seen) {
            Some((path, rest)) => CollectorModel { stack: rest, seen: c.seen.push(path), ..c },
            None => CollectorModel { stack: Seq::empty(), ..c },
        },
        CollectorStep::Entry { dir, name } => CollectorModel {
            stack: c.stack.push(crate::host_path::joined(dir, name)),
            ..c
        },
        CollectorStep::Keep(file) => CollectorModel { files: c.files.push(file), ..c },
    }
}

/// The collection that steps lead to.
pub open spec fn collected(c: CollectorModel, steps: Seq<CollectorStep>) -> CollectorModel
    decreases steps.len(),
{
    if steps.len() == 0 {
        c
    } else {
        collector_after(collected(c, steps.drop_last()), steps.last())
    }
}

/// Each entry that is added is one of a directory that was handed out.
pub open spec fn adds_entries_of_handed_out(c: CollectorModel, steps: Seq<CollectorStep>) -> bool
    decreases steps.len(),
{
    steps.len() == 0 || (adds_entries_of_handed_out(c, steps.drop_last()) && match steps.last() {
        CollectorStep::Entry { dir, name } => collected(c, steps.drop_last()).seen.contains(dir)
            && crate::vfs_path::valid_segment(name),
        _ => true,
    })
}

/// The path is one of those given, in normal form, or lies below one.
pub open spec fn is_under_one(path: Seq<char>, starts: Seq<Seq<char>>) -> bool {
    exists|i: int|
        0 <= i < starts.len() && crate::host_path::is_under(
            path,
            crate::host_path::normalized(#[trigger] starts[i]),
        )
}

/// A collection never leaves the paths it starts from: where only entries of
/// directories that were handed out are added, every path that is handed out
/// is one of those, or lies below one.
pub proof fn lemma_collection_stays_inside(starts: Seq<Seq<char>>, steps: Seq<CollectorStep>)
    requires
        adds_entries_of_handed_out(
            CollectorModel { stack: starts, seen: Seq::empty(), files: Seq::empty() },
            steps,
        ),
    ensures
        ({
            let c = collected(
                CollectorModel { stack: starts, seen: Seq::empty(), files: Seq::empty() },
                steps,
            );
            &&& forall|i: int| 0 <= i < c.seen.len() ==> is_under_one(#[trigger] c.seen[i], starts)
            &&& next_unseen(c.stack, c.seen) matches Some((path, rest)) ==> is_under_one(
                path,
                starts,
            )
        }),
{
    lemma_collection_confined(starts, steps);
    let c = collected(
        CollectorModel { stack: starts, seen: Seq::empty(), files: Seq::empty() },
        steps,
    );
    lemma_next_confined(c.stack, c.seen, starts);
}

/// Every path of a stack leads to one of those given, or below one.
spec fn leads_inside(stack: Seq<Seq<char>>, starts: Seq<Seq<char>>) -> bool {
    forall|i: int|
        0 <= i < stack.len() ==> is_under_one(
            crate::host_path::normalized(#[trigger] stack[i]),
            starts,
        )
}

proof fn lemma_next_confined(stack: Seq<Seq<char>>, seen: Seq<Seq<char>>, starts: Seq<Seq<char>>)
    requires
        leads_inside(stack, starts),
    ensures
        next_unseen(stack, seen) matches Some((path, rest)) ==> is_under_one(path, starts)
            && leads_inside(rest, starts) && crate::host_path::normalized(path) == path,
    decreases stack.len(),
{
    if stack.len() > 0 {
        assert(is_under_one(crate::host_path::normalized(stack[stack.len() - 1]), starts));
        crate::host_path::lemma_normalize_idempotent(stack.last());
        assert(leads_inside(stack.drop_last(), starts)) by {
            assert forall|i: int| 0 <= i < stack.len() - 1 implies is_under_one(
                crate::host_path::normalized(#[trigger] stack.drop_last()[i]),
                starts,
            ) by {
                assert(stack.drop_last()[i] == stack[i]);
            }
        }
        lemma_next_confined(stack.drop_last(), seen, starts);
    }
}

proof fn lemma_entry_confined(dir: Seq<char>, name: Seq<char>, starts: Seq<Seq<char>>)
    requires
        crate::vfs_path::valid_segment(name),
        crate::host_path::normalized(dir) == dir,
        is_under_one(dir, starts),
    ensures
        is_under_one(
            crate::host_path::normalized(crate::host_path::joined(dir, name)),
            starts,
        ),
{
    crate::host_path::lemma_segment_parts(name);
    crate::host_path::lemma_join_stays_below(dir, name);
    let i = choose|i: int|
        0 <= i < starts.len() && crate::host_path::is_under(
            dir,
            crate::host_path::normalized(#[trigger] starts[i]),
        );
    let a = crate::host_path::path_parts(crate::host_path::normalized(starts[i]));
    let b = crate::host_path::path_parts(dir);
    let c = crate::host_path::path_parts(
        crate::host_path::normalized(crate::host_path::joined(dir, name)),
    );
    assert(a =~= c.subrange(0, a.len() as int));
}

proof fn lemma_collection_confined(starts: Seq<Seq<char>>, steps: Seq<CollectorStep>)
    requires
        adds_entries_of_handed_out(
            CollectorModel { stack: starts, seen: Seq::empty(), files: Seq::empty() },
            steps,
        ),
    ensures
        ({
            let c = collected(
                CollectorModel { stack: starts, seen: Seq::empty(), files: Seq::empty() },
                steps,
            );
            &&& leads_inside(c.stack, starts)
            &&& forall|i: int|
                0 <= i < c.seen.len() ==> is_under_one(#[trigger] c.seen[i], starts)
                    && crate::host_path::normalized(c.seen[i]) == c.seen[i]
        }),
    decreases steps.len(),
{
    let first = CollectorModel { stack: starts, seen: Seq::empty(), files: Seq::empty() };
    if steps.len() == 0 {
        assert forall|i: int| 0 <= i < starts.len() implies is_under_one(
            crate::host_path::normalized(#[trigger] starts[i]),
            starts,
        ) by {
            let parts = crate::host_path::path_parts(crate::host_path::normalized(starts[i]));
            assert(parts =~= parts.subrange(0, parts.len() as int));
        }
    } else {
        lemma_collection_confined(starts, steps.drop_last());
        let c = collected(first, steps.drop_last());
        let after = collected(first, steps);
        match steps.last() {
            CollectorStep::Next => {
                lemma_next_confined(c.stack, c.seen, starts);
            },
            CollectorStep::Entry { dir, name } => {
                let k = choose|k: int| 0 <= k < c.seen.len() && c.seen[k] == dir;
                lemma_entry_confined(dir, name, starts);
            },
            CollectorStep::Keep(_) => {},
        }
        assert forall|i: int| 0 <= i < after.stack.len() implies is_under_one(
            crate::host_path::normalized(#[trigger] after.stack[i]),
            starts,
        ) by {
            if steps.last() is Entry && i < c.stack.len() {
                assert(after.stack[i] == c.stack[i]);
            }
        }
        assert forall|i: int| 0 <= i < after.seen.len() implies is_under_one(
            #[trigger] after.seen[i],
            starts,
        ) && crate::host_path::normalized(after.seen[i]) == after.seen[i] by {
            if i < c.seen.len() {
                assert(after.seen[i] == c.seen[i]);
            }
        }
    }
}

} // verus!
