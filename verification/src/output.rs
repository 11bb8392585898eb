//! What the program prints.

use vstd::prelude::*;

use crate::bundle::TaskBundle;
use crate::json_value::{json_as_bool, json_as_i64, json_as_text, json_from_str, json_get};
use crate::manifest::Manifest;
use crate::snapshot::fnv64;
use crate::text::{
    cat, cat3, decimal_text, join_texts, lossy_text, owned, signed_text, to_lower,
};
use crate::trace::text_lines;

verus! {

#[derive(Clone, Copy, Debug, PartialEq, Eq, Structural)]
pub enum LogLevel {
    Info,
    Step,
    Warn,
    Exec,
    Llm,
}

/// A line of the log.
#[derive(Clone, Debug, PartialEq, Eq)]
pub struct LogLine {
    pub level: LogLevel,
    pub text: String,
}

/// A line as it counts.
pub ghost struct LineModel {
    pub level: LogLevel,
    pub text: Seq<char>,
}

impl View for LogLine {
    type V = LineModel;

    open spec fn view(&self) -> LineModel {
        LineModel { level: self.level, text: self.text@ }
    }
}

pub open spec fn line_models(v: Seq<LogLine>) -> Seq<LineModel> {
    v.map_values(|l: LogLine| l@)
}

/// What a line of the given level begins with.
pub open spec fn level_tag(l: LogLevel) -> Seq<char> {
    match l {
        LogLevel::Info => "[INFO] "@,
        LogLevel::Step => "[STEP] "@,
        LogLevel::Warn => "[WARN] "@,
        LogLevel::Exec => "[EXEC] "@,
        LogLevel::Llm => "[LLM] "@,
    }
}

impl LogLine {
    pub fn new(level: LogLevel, text: String) -> (r: LogLine)
        ensures
            r@ == (LineModel { level, text: text@ }),
    {
        LogLine { level, text }
    }

    /// The line as it is printed.
    pub fn render(&self) -> (r: String)
        ensures
            r@ == level_tag(self.level) + self.text@,
    {
        let tag = match self.level {
            LogLevel::Info => "[INFO] ",
            LogLevel::Step => "[STEP] ",
            LogLevel::Warn => "[WARN] ",
            LogLevel::Exec => "[EXEC] ",
            LogLevel::Llm => "[LLM] ",
        };
        cat(tag, self.text.as_str())
    }
}

/// A list in brackets, with commas between.
pub open spec fn bracketed(items: Seq<Seq<char>>) -> Seq<char> {
    "["@ + crate::text::joined_with(items, ","@) + "]"@
}

/// A list in brackets, with commas between.
pub fn format_strings(values: &Vec<String>) -> (r: String)
    ensures
        r@ == bracketed(crate::text::texts(values@)),
{
    let inside = join_texts(values, ",");
    cat3("[", inside.as_str(), "]")
}

/// A list of paths in brackets, with commas between.
pub fn format_paths(paths: &Vec<String>) -> (r: String)
    ensures
        r@ == bracketed(crate::text::texts(paths@)),
{
    format_strings(paths)
}

/// The line that shows what a manifest allows.
pub open spec fn manifest_text(m: crate::manifest::ManifestModel) -> Seq<char> {
    "manifest: allow_read="@ + bracketed(m.allow_read) + ", allow_write="@ + bracketed(
        m.allow_write,
    ) + ", allow_exec="@ + bracketed(m.allow_exec)
}

pub fn manifest_line(m: &Manifest) -> (r: LogLine)
    ensures
        r@ == (LineModel { level: LogLevel::Info, text: manifest_text(m@) }),
{
    let mut text = cat3(
        "manifest: allow_read=",
        format_paths(&m.allow_read).as_str(),
        ", allow_write=",
    );
    text.append(format_paths(&m.allow_write).as_str());
    text.append(", allow_exec=");
    text.append(format_strings(&m.allow_exec).as_str());
    LogLine::new(LogLevel::Info, text)
}

/// The text in a member of an event, or a default.
pub open spec fn text_or(
    event: serde_json::Value,
    key: Seq<char>,
    default_text: Seq<char>,
) -> Seq<char> {
    match crate::json_value::json_member(event, key) {
        Some(x) => match crate::json_value::json_text(x) {
            Some(t) => t,
            None => default_text,
        },
        None => default_text,
    }
}

fn member_text(event: &serde_json::Value, key: &str, default_text: &str) -> (r: String)
    ensures
        r@ == text_or(*event, key@, default_text@),
{
    match json_get(event, key) {
        Some(x) => match json_as_text(x) {
            Some(t) => t,
            None => owned(default_text),
        },
        None => owned(default_text),
    }
}

/// Whether an access was allowed; not, where the event does not say.
pub open spec fn allowed_in(event: serde_json::Value) -> bool {
    match crate::json_value::json_member(event, "allowed"@) {
        Some(x) => crate::json_value::json_bool(x) == Some(true),
        None => false,
    }
}

/// The exit code of a command; -1, where the event does not say.
pub open spec fn exit_code_in(event: serde_json::Value) -> int {
    match crate::json_value::json_member(event, "exit_code"@) {
        Some(x) => match crate::json_value::json_integer(x) {
            Some(n) => n as int,
            None => -1,
        },
        None => -1,
    }
}

/// What is shown of one event.
pub open spec fn event_line(v: serde_json::Value) -> Option<LineModel> {
    match crate::json_value::json_member(v, "FileAccess"@) {
        Some(event) => Some(
            LineModel {
                level: LogLevel::Step,
                text: "file_access: "@ + crate::text::lowered(text_or(event, "access"@, ""@))
                    + " "@ + text_or(event, "path"@, ""@) + (if allowed_in(event) {
                    " (allowed)"@
                } else {
                    " (denied)"@
                }),
            },
        ),
        None => match crate::json_value::json_member(v, "ViolationOccurred"@) {
            Some(event) => Some(
                LineModel {
                    level: LogLevel::Warn,
                    text: "violation: "@ + text_or(event, "reason"@, "unknown"@),
                },
            ),
            None => match crate::json_value::json_member(v, "CommandExecuted"@) {
                Some(event) => Some(
                    LineModel {
                        level: LogLevel::Exec,
                        text: "command: "@ + text_or(event, "command"@, ""@) + " exit_code="@
                            + crate::text::signed_decimal(exit_code_in(event)),
                    },
                ),
                None => None,
            },
        },
    }
}

/// What is shown of one event.
pub fn observe_event(v: &serde_json::Value) -> (r: Option<LogLine>)
    ensures
        match r {
            Some(l) => event_line(*v) == Some(l@),
            None => event_line(*v) is None,
        },
{
    if let Some(event) = json_get(v, "FileAccess") {
        let path = member_text(event, "path", "");
        let access = member_text(event, "access", "");
        let allowed = match json_get(event, "allowed") {
            Some(x) => match json_as_bool(x) {
                Some(b) => b,
                None => false,
            },
            None => false,
        };
        let low = to_lower(access.as_str());
        let mut text = cat3("file_access: ", low.as_str(), " ");
        text.append(path.as_str());
        text.append(
            if allowed {
                " (allowed)"
            } else {
                " (denied)"
            },
        );
        return Some(LogLine::new(LogLevel::Step, text));
    }
    if let Some(event) = json_get(v, "ViolationOccurred") {
        let reason = member_text(event, "reason", "unknown");
        return Some(LogLine::new(LogLevel::Warn, cat("violation: ", reason.as_str())));
    }
    if let Some(event) = json_get(v, "CommandExecuted") {
        let command = member_text(event, "command", "");
        let code: i64 = match json_get(event, "exit_code") {
            Some(x) => match json_as_i64(x) {
                Some(n) => n,
                None => -1,
            },
            None => -1,
        };
        let shown = signed_text(code);
        let mut text = cat3("command: ", command.as_str(), " exit_code=");
        text.append(shown.as_str());
        return Some(LogLine::new(LogLevel::Exec, text));
    }
    None
}

/// What is shown of the lines of a trace. A line that is no event is passed
/// over.
pub open spec fn shown_lines(lines: Seq<Seq<char>>) -> Seq<LineModel>
    decreases lines.len(),
{
    if lines.len() == 0 {
        Seq::empty()
    } else {
        let before = shown_lines(lines.drop_last());
        match crate::json_value::json_text_document(lines.last()) {
            Err(_) => before,
            Ok(v) => match event_line(v) {
                Some(l) => before.push(l),
                None => before,
            },
        }
    }
}

/// What is shown of the lines of a trace.
pub fn emit_trace_observability(lines: &Vec<String>) -> (r: Vec<LogLine>)
    ensures
        line_models(r@) == shown_lines(crate::text::texts(lines@)),
{
    let ghost all = crate::text::texts(lines@);
    let mut out: Vec<LogLine> = Vec::new();
    let mut i: usize = 0;
    proof {
        assert(all.take(0) =~= Seq::empty());
        assert(line_models(out@) =~= Seq::empty());
    }
    while i < lines.len()
        invariant
            i <= lines.len(),
            all == crate::text::texts(lines@),
            line_models(out@) == shown_lines(all.take(i as int)),
        decreases lines.len() - i,
    {
        proof {
            assert(all[i as int] == lines@[i as int]@);
            assert(all.take(i + 1).drop_last() =~= all.take(i as int));
            assert(all.take(i + 1).last() == all[i as int]);
        }
        let ghost before = line_models(out@);
        if let Ok(v) = json_from_str(lines[i].as_str()) {
            if let Some(l) = observe_event(&v) {
                out.push(l);
                proof {
                    assert(line_models(out@) =~= before.push(l@));
                }
            }
        }
        i = i + 1;
    }
    proof {
        assert(all.take(all.len() as int) =~= all);
    }
    out
}

fn prefixed(level: LogLevel, prefix: &str, lines: &Vec<String>) -> (r: Vec<LogLine>)
    ensures
        line_models(r@) == crate::text::texts(lines@).map_values(
            |l: Seq<char>| LineModel { level, text: prefix@ + l },
        ),
{
    let mut out: Vec<LogLine> = Vec::new();
    let mut i: usize = 0;
    while i < lines.len()
        invariant
            i <= lines.len(),
            out@.len() == i,
            forall|k: int|
                0 <= k < i ==> (#[trigger] out@[k])@ == (LineModel {
                    level,
                    text: prefix@ + lines@[k]@,
                }),
        decreases lines.len() - i,
    {
        out.push(LogLine::new(level, cat(prefix, lines[i].as_str())));
        i = i + 1;
    }
    proof {
        assert(line_models(out@) =~= crate::text::texts(lines@).map_values(
            |l: Seq<char>| LineModel { level, text: prefix@ + l },
        ));
    }
    out
}

/// The lines that a command wrote to one of its streams.
pub fn emit_exec_output(stream: &str, bytes: &[u8]) -> (r: Vec<LogLine>)
    ensures
        line_models(r@) == crate::trace::lines(crate::text::utf8_lossy(bytes@)).map_values(
            |l: Seq<char>| LineModel { level: LogLevel::Exec, text: stream@ + ": "@ + l },
        ),
{
    let text = lossy_text(bytes);
    let lines = text_lines(text.as_str());
    let prefix = cat(stream, ": ");
    prefixed(LogLevel::Exec, prefix.as_str(), &lines)
}

/// The lines that show what a model is told.
pub fn emit_debug_xml(xml: &str) -> (r: Vec<LogLine>)
    ensures
        line_models(r@) == seq![LineModel { level: LogLevel::Llm, text: "xml_context_begin"@ }]
            + crate::trace::lines(xml@).map_values(
            |l: Seq<char>| LineModel { level: LogLevel::Llm, text: "xml: "@ + l },
        ) + seq![LineModel { level: LogLevel::Llm, text: "xml_context_end"@ }],
{
    let lines = text_lines(xml);
    let mut inner = prefixed(LogLevel::Llm, "xml: ", &lines);
    let ghost middle = line_models(inner@);
    let mut out: Vec<LogLine> = Vec::new();
    out.push(LogLine::new(LogLevel::Llm, owned("xml_context_begin")));
    let ghost first = out@;
    out.append(&mut inner);
    let end = LogLine::new(LogLevel::Llm, owned("xml_context_end"));
    out.push(end);
    proof {
        assert(line_models(out@) =~= seq![
            LineModel { level: LogLevel::Llm, text: "xml_context_begin"@ },
        ] + middle + seq![LineModel { level: LogLevel::Llm, text: "xml_context_end"@ }]);
    }
    out
}

/// The last `width` hexadecimal digits of a number, with zeros in front.
pub open spec fn hex_padded(n: nat, width: nat) -> Seq<char>
    decreases width,
{
    if width == 0 {
        Seq::empty()
    } else {
        hex_padded(n / 16, (width - 1) as nat).push(crate::ids::hex_digit((n % 16) as int))
    }
}

fn hex_char(d: u8) -> (r: char)
    requires
        d < 16,
    ensures
        r == crate::ids::hex_digit(d as int),
{
    if d < 10 {
        (48u8 + d) as char
    } else {
        (87u8 + d) as char
    }
}

/// The last `width` hexadecimal digits of a number, with zeros in front.
pub fn hex_text(n: u64, width: usize) -> (r: String)
    ensures
        r@ == hex_padded(n as nat, width as nat),
    decreases width,
{
    if width == 0 {
        return String::new();
    }
    let mut r = hex_text(n / 16, width - 1);
    let d: u8 = (n % 16) as u8;
    r.push(hex_char(d));
    r
}

/// The line of a file or an artifact in a bundle.
pub open spec fn hashed_text(what: Seq<char>, path: Seq<char>, bytes: nat, hash: u64) -> Seq<char> {
    what + " path="@ + path + " bytes="@ + crate::text::decimal(bytes) + " hash=fnv64:"@
        + hex_padded(hash as nat, 16)
}

fn hashed_line(what: &str, path: &str, bytes: u64, hash: u64) -> (r: String)
    ensures
        r@ == hashed_text(what@, path@, bytes as nat, hash),
{
    let mut r = cat3(what, " path=", path);
    r.append(" bytes=");
    let n = decimal_text(bytes);
    r.append(n.as_str());
    r.append(" hash=fnv64:");
    let h = hex_text(hash, 16);
    r.append(h.as_str());
    r
}

/// What is shown of a bundle.
pub open spec fn inspection(b: TaskBundle) -> Seq<Seq<char>> {
    seq![
        "bundle.version="@ + crate::text::decimal(b.version as nat),
        "bundle.source_task_id="@ + crate::ids::hyphenated(b.source_task_id.0),
        "bundle.source_status="@ + crate::task::status_text(b.source_status),
        "bundle.files="@ + crate::text::decimal(b.files@.len()),
        "bundle.artifact_hashes="@ + crate::text::decimal(b.artifact_hashes@.len()),
    ] + b.files@.map_values(
        |f: crate::bundle::BundleFile|
            hashed_text(
                "file"@,
                f.relative_path@,
                f.bytes@.len(),
                crate::snapshot::fnv64_of(f.bytes@),
            ),
    ) + b.artifact_hashes@.map_values(
        |a: crate::task::ArtifactHash|
            hashed_text("artifact"@, a.path@, a.bytes as nat, a.fnv64),
    ) + seq!["trace.begin"@] + crate::trace::lines(crate::text::utf8_lossy(b.trace_jsonl@))
        + seq!["trace.end"@]
}

/// What is shown of a bundle.
pub fn inspect_lines(b: &TaskBundle) -> (r: Vec<String>)
    ensures
        crate::text::texts(r@) == inspection(*b),
{
    let mut out: Vec<String> = Vec::new();
    out.push(cat("bundle.version=", decimal_text(b.version as u64).as_str()));
    out.push(cat("bundle.source_task_id=", b.source_task_id.text().as_str()));
    out.push(cat("bundle.source_status=", b.source_status.text()));
    out.push(cat("bundle.files=", decimal_text(b.files.len() as u64).as_str()));
    out.push(cat("bundle.artifact_hashes=", decimal_text(b.artifact_hashes.len() as u64).as_str()));
    let ghost head = crate::text::texts(out@);
    let ghost files = b.files@.map_values(
        |f: crate::bundle::BundleFile|
            hashed_text(
                "file"@,
                f.relative_path@,
                f.bytes@.len(),
                crate::snapshot::fnv64_of(f.bytes@),
            ),
    );
    let ghost hashes = b.artifact_hashes@.map_values(
        |a: crate::task::ArtifactHash|
            hashed_text("artifact"@, a.path@, a.bytes as nat, a.fnv64),
    );
    proof {
        assert(head =~= seq![
            "bundle.version="@ + crate::text::decimal(b.version as nat),
            "bundle.source_task_id="@ + crate::ids::hyphenated(b.source_task_id.0),
            "bundle.source_status="@ + crate::task::status_text(b.source_status),
            "bundle.files="@ + crate::text::decimal(b.files@.len()),
            "bundle.artifact_hashes="@ + crate::text::decimal(b.artifact_hashes@.len()),
        ]);
        assert(crate::text::texts(out@) =~= head + files.take(0));
    }
    let mut i: usize = 0;
    while i < b.files.len()
        invariant
            i <= b.files.len(),
            files == b.files@.map_values(
                |f: crate::bundle::BundleFile|
                    hashed_text(
                        "file"@,
                        f.relative_path@,
                        f.bytes@.len(),
                        crate::snapshot::fnv64_of(f.bytes@),
                    ),
            ),
            crate::text::texts(out@) == head + files.take(i as int),
        decreases b.files.len() - i,
    {
        let f = &b.files[i];
        let ghost before = crate::text::texts(out@);
        let line = hashed_line(
            "file",
            f.relative_path.as_str(),
            f.bytes.len() as u64,
            fnv64(f.bytes.as_slice()),
        );
        out.push(line);
        proof {
            assert(line@ == files[i as int]);
            assert(crate::text::texts(out@) =~= before.push(files[i as int]));
            assert(head + files.take(i + 1) =~= before.push(files[i as int]));
        }
        i = i + 1;
    }
    let ghost upto = head + files;
    proof {
        assert(files.take(files.len() as int) =~= files);
        assert(crate::text::texts(out@) =~= upto + hashes.take(0));
    }
    let mut j: usize = 0;
    while j < b.artifact_hashes.len()
        invariant
            j <= b.artifact_hashes.len(),
            hashes == b.artifact_hashes@.map_values(
                |a: crate::task::ArtifactHash|
                    hashed_text("artifact"@, a.path@, a.bytes as nat, a.fnv64),
            ),
            crate::text::texts(out@) == upto + hashes.take(j as int),
        decreases b.artifact_hashes.len() - j,
    {
        let a = &b.artifact_hashes[j];
        let ghost before = crate::text::texts(out@);
        let line = hashed_line("artifact", a.path.as_str(), a.bytes, a.fnv64);
        out.push(line);
        proof {
            assert(line@ == hashes[j as int]);
            assert(crate::text::texts(out@) =~= before.push(hashes[j as int]));
            assert(upto + hashes.take(j + 1) =~= before.push(hashes[j as int]));
        }
        j = j + 1;
    }
    proof {
        assert(hashes.take(hashes.len() as int) =~= hashes);
    }
    let ghost before = crate::text::texts(out@);
    let trace = lossy_text(b.trace_jsonl.as_slice());
    let mut lines = text_lines(trace.as_str());
    let ghost shown = crate::text::texts(lines@);
    out.push(owned("trace.begin"));
    out.append(&mut lines);
    out.push(owned("trace.end"));
    proof {
        assert(crate::text::texts(out@) =~= before + seq!["trace.begin"@] + shown + seq![
            "trace.end"@,
        ]);
    }
    out
}

} // verus!
