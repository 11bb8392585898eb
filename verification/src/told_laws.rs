//! What an operator is told: the lines of a run, of a session, of a command
//! and of a task that has ended.

use vstd::prelude::*;

use crate::bundle::{export_bundle, import_bundle, BundleError, BundleFile, ImportPlan, TaskBundle};
use crate::handlers::{agent_place, AgentPlace};
use crate::ids::TaskId;
use crate::manifest::Manifest;
use crate::output::{emit_debug_xml, emit_exec_output, manifest_line, LogLine};
use crate::registry::{AgentRecord, AgentRegistry};
use crate::repl::ReplSession;
use crate::run::{
    closing_bytes, closing_output, summary_line, Output, Run, RunEvent, RunEventModel, RunTurn,
    RunActionModel, StageModel,
};
use crate::runtime::AgentId;
use crate::task::{ArtifactHash, Task, TaskStatus};
use crate::vfs_path::VfsPath;

verus! {

/// The line of a manifest tells what may be read, what may be written and what
/// may be run, each under its own name.
pub proof fn lemma_manifests_are_told(m: &Manifest, r: LogLine)
    requires
        call_ensures(manifest_line, (m,), r),
    ensures
        r.level is Info,
        r.text@ == "manifest: allow_read=["@ + crate::text::joined_with(m@.allow_read, ","@)
            + "], allow_write=["@ + crate::text::joined_with(m@.allow_write, ","@)
            + "], allow_exec=["@ + crate::text::joined_with(m@.allow_exec, ","@) + "]"@,
{
    assert(r@.level is Info);
    reveal_strlit("manifest: allow_read=[");
    reveal_strlit("manifest: allow_read=");
    reveal_strlit("], allow_write=[");
    reveal_strlit(", allow_write=");
    reveal_strlit("], allow_exec=[");
    reveal_strlit(", allow_exec=");
    reveal_strlit("[");
    reveal_strlit("]");
    let a = crate::text::joined_with(m@.allow_read, ","@);
    let b = crate::text::joined_with(m@.allow_write, ","@);
    let c = crate::text::joined_with(m@.allow_exec, ","@);
    assert(r.text@ =~= "manifest: allow_read=["@ + a + "], allow_write=["@ + b
        + "], allow_exec=["@ + c + "]"@);
}

/// The status of a session tells each of its settings.
pub proof fn lemma_sessions_tell_their_settings(s: &ReplSession, r: Vec<String>)
    requires
        call_ensures(ReplSession::status, (s,), r),
    ensures
        r@.len() == 6,
        r@[0]@ == "provider="@ + s@.current_provider,
        r@[1]@ == "model="@ + s@.current_model,
        s@.manifest_path matches Some(p) ==> r@[2]@ == "manifest="@ + p,
        s@.manifest_path is None ==> r@[2]@ == "manifest="@ + "<unset>"@,
        r@[3]@ == "workdir="@ + s@.workdir,
        s@.base_url matches Some(u) ==> r@[4]@ == "base_url="@ + u,
        s@.base_url is None ==> r@[4]@ == "base_url="@ + "<provider-default>"@,
        s@.debug_xml ==> r@[5]@ == "debug_xml="@ + "true"@,
        !s@.debug_xml ==> r@[5]@ == "debug_xml="@ + "false"@,
{
    let shown = crate::text::texts(r@);
    assert(shown.len() == 6 && r@.len() == shown.len());
    assert(shown[0] == r@[0]@ && shown[1] == r@[1]@ && shown[2] == r@[2]@);
    assert(shown[3] == r@[3]@ && shown[4] == r@[4]@ && shown[5] == r@[5]@);
}

/// Every line that a command puts out is told, with the stream that it came
/// from.
pub proof fn lemma_commands_are_heard(stream: &str, bytes: &[u8], r: Vec<LogLine>, i: int)
    requires
        call_ensures(emit_exec_output, (stream, bytes), r),
        0 <= i < r@.len(),
    ensures
        r@.len() == crate::trace::lines(crate::text::utf8_lossy(bytes@)).len(),
        r@[i].level is Exec,
        r@[i].text@ == stream@ + ": "@ + crate::trace::lines(crate::text::utf8_lossy(bytes@))[i],
{
    let told = crate::output::line_models(r@);
    assert(told.len() == r@.len());
    assert(told[i] == r@[i]@);
    assert(r@[i]@.level is Exec);
}

/// Every line of a context is told, between a line at its beginning and one at
/// its end.
pub proof fn lemma_contexts_are_told(xml: &str, r: Vec<LogLine>, i: int)
    requires
        call_ensures(emit_debug_xml, (xml,), r),
        0 <= i < crate::trace::lines(xml@).len(),
    ensures
        r@.len() == crate::trace::lines(xml@).len() + 2,
        r@[i + 1].level is Llm && r@[i + 1].text@ == "xml: "@ + crate::trace::lines(xml@)[i],
        r@[0].text@ == "xml_context_begin"@,
        r@.last().text@ == "xml_context_end"@,
{
    let told = crate::output::line_models(r@);
    assert(told.len() == r@.len());
    assert(told[i + 1] == r@[i + 1]@);
    assert(r@[i + 1]@.level is Llm);
    assert(told[0] == r@[0]@);
    assert(told.last() == r@.last()@);
}

/// What a run leaves on its output: the bundle, where it goes into a pipe and
/// is exported; nothing, where it goes into a pipe and is not; and otherwise
/// one line.
pub proof fn lemma_runs_leave_their_output(
    export: bool,
    stdout_is_pipe: bool,
    packed: Vec<u8>,
    line: &str,
    output: Output,
    r: Vec<u8>,
)
    requires
        call_ensures(closing_output, (export, stdout_is_pipe), output),
        call_ensures(closing_bytes, (output, packed, line), r),
    ensures
        stdout_is_pipe && export ==> r@ == packed@,
        stdout_is_pipe && !export ==> r@.len() == 0,
        !stdout_is_pipe ==> r@ == vstd::utf8::encode_utf8(line@) + seq![10u8],
{
    if !stdout_is_pipe {
        assert(r@ =~= vstd::utf8::encode_utf8(line@) + seq![10u8]);
    }
}

/// The line at the end of a run tells the task, how it ended, where it worked
/// and how large its bundle is.
pub proof fn lemma_ends_are_told(
    id: TaskId,
    status: TaskStatus,
    workdir: &str,
    bytes: Option<usize>,
    r: String,
)
    requires
        call_ensures(summary_line, (id, status, workdir, bytes), r),
    ensures
        ({
            let head = "task_id="@ + crate::ids::hyphenated(id.0) + " status="@
                + crate::task::status_text(status) + " workdir="@ + workdir@;
            &&& bytes matches Some(n) ==> r@ == head + " bundle_bytes="@ + crate::text::decimal(
                n as nat,
            )
            &&& bytes is None ==> r@ == head + " bundle_exported=false"@
        }),
{
}

/// A run tells why it failed and where it goes back to, and that it has gone
/// back; and a model that failed is told with its error.
pub proof fn lemma_failures_are_told(run: &mut Run, event: RunEvent, r: Result<RunTurn, String>)
    requires
        call_ensures(Run::step, (run, event), r),
        r is Ok,
    ensures
        ({
            let lines = r->Ok_0.lines@;
            &&& old(run)@.stage matches StageModel::Script { id, timeout_ms } ==> (
            event@ matches RunEventModel::ScriptFailed(why) ==> lines.len() == 2
                && lines[0].level is Warn && lines[0].text@ == "run failed: "@ + why
                && lines[1].level is Warn && lines[1].text@ == "initiating rollback to checkpoint: "@
                + crate::ids::hyphenated(id.0))
            &&& old(run)@.stage matches StageModel::Script { id, timeout_ms } ==> (
            event@ is ScriptTimedOut ==> lines.len() == 2 && lines[0].level is Warn
                && lines[0].text@ == "run failed: "@ + ("timeout_ms exceeded: "@
                + crate::text::decimal(timeout_ms as nat)))
            &&& old(run)@.stage is Rollback ==> lines.len() == 1 && lines[0].level is Warn
            &&& old(run)@.stage is Report ==> (event@ matches RunEventModel::Report {
                error_type: Some(t),
                message: Some(m),
            } ==> lines.len() == 1 && lines[0].level is Warn && lines[0].text@
                == "task report: error_type="@ + crate::run::error_type_text(t) + " message="@ + m)
            &&& old(run)@.stage matches StageModel::Task { from_bundle, timeout_ms } ==> (
            event@ matches RunEventModel::Task(id) ==> lines.len() == 1 && lines[0].level is Info
                && lines[0].text@ == "task started: task_id="@ + crate::ids::hyphenated(id.0))
            &&& old(run)@.stage matches StageModel::Checkpoint { script, timeout_ms } ==> (
            event@ matches RunEventModel::Checkpoint(id) ==> lines.len() == 1
                && lines[0].level is Info && lines[0].text@ == "checkpoint created: id="@
                + crate::ids::hyphenated(id.0))
        }),
{
    let lines = r->Ok_0.lines@;
    let told = crate::output::line_models(lines);
    assert(told.len() == lines.len());
    if lines.len() > 0 {
        assert(told[0] == lines[0]@);
        assert(lines[0]@.level == lines[0].level);
    }
    if lines.len() > 1 {
        assert(told[1] == lines[1]@);
        assert(lines[1]@.level == lines[1].level);
    }
}


/// The task is told on one line when it starts, with a space for each line
/// feed in it.
pub proof fn lemma_starts_are_told(
    run: &mut Run,
    event: RunEvent,
    r: Result<RunTurn, String>,
    i: int,
)
    requires
        call_ensures(Run::step, (run, event), r),
        old(run)@.stage is Safety,
        !old(run)@.stdin_is_pipe,
        0 <= i < old(run)@.task_text.len(),
    ensures
        r matches Ok(t) && (t.action@ matches RunActionModel::StartTask {
            manifest,
            from_bundle,
            line,
            text,
        } && line.level is Info && text == old(run)@.task_text && line.text.len() == 6 + text.len()
            && line.text[6 + i] == (if text[i] == '\n' {
            ' '
        } else {
            text[i]
        }) && "task: "@.is_prefix_of(line.text)),
{
    reveal_strlit("task: ");
    let told = crate::run::on_one_line(old(run)@.task_text);
    let whole = "task: "@ + told;
    assert("task: "@ =~= whole.subrange(0, 6));
    assert(whole[6 + i] == told[i]);
}

/// A bundle tells the task that it comes from and how that ended, and carries
/// its artifacts and its trace.
pub proof fn lemma_bundles_tell_their_source(
    task: &Task,
    files: Vec<BundleFile>,
    hashes: Vec<ArtifactHash>,
    trace: Vec<u8>,
    r: TaskBundle,
)
    requires
        call_ensures(export_bundle, (task, files, hashes, trace), r),
    ensures
        r.version == 1,
        r.source_task_id == task.id,
        r.source_status == task.status,
        r.files@.len() == files@.len(),
        r.artifact_hashes@ == hashes@,
        r.trace_jsonl@ == trace@,
{
    crate::order::lemma_sorted_same_elements(crate::bundle::packed_models(files@));
    assert(crate::bundle::packed_models(r.files@).len() == r.files@.len());
}

/// A bundle is taken only in its version, and only up to the first file whose
/// path leads out of it, which is named.
pub proof fn lemma_bundles_stop_at_unsafe_paths(
    b: TaskBundle,
    dir: &str,
    r: Result<ImportPlan, BundleError>,
    i: int,
)
    requires
        call_ensures(import_bundle, (b, dir), r),
        0 <= i < b.files@.len(),
        forall|j: int|
            0 <= j < i ==> !leads_out((#[trigger] b.files@[j]).relative_path@),
        leads_out(b.files@[i].relative_path@),
    ensures
        b.version != 1 ==> (r matches Err(BundleError::UnsupportedVersion(v)) && v == b.version),
        b.version == 1 ==> (r matches Ok(plan) && plan.files@.len() == i && (
        plan.refused matches Some(BundleError::UnsafePath(p)) && p@ == b.files@[i].relative_path@)),
{
    let files = crate::bundle::packed_models(b.files@);
    assert forall|j: int| 0 <= j <= i implies (#[trigger] files[j]).path
        == b.files@[j].relative_path@ by {}
    let workdir = crate::host_path::normalized(dir@);
    lemma_stops_at(workdir, files, i);
    if let Ok(plan) = r {
        assert(crate::bundle::packed_models(plan.files@).len() == plan.files@.len());
    }
}

/// The path is absolute, climbs, or names nothing.
pub open spec fn leads_out(p: Seq<char>) -> bool {
    let parts = crate::host_path::path_parts(p);
    ||| parts.contains(".."@)
    ||| parts.contains("/"@)
    ||| forall|k: int| 0 <= k < parts.len() ==> #[trigger] parts[k] == "."@
}

proof fn lemma_stops_at(workdir: Seq<char>, files: Seq<crate::bundle::PackedModel>, i: int)
    requires
        0 <= i < files.len(),
        forall|j: int| 0 <= j < i ==> !leads_out((#[trigger] files[j]).path),
        leads_out(files[i].path),
    ensures
        crate::bundle::placed_files(workdir, files).len() == i,
        crate::bundle::first_refused(files) == Some(files[i].path),
    decreases i,
{
    lemma_refused_paths(files[0].path);
    if i > 0 {
        assert(!leads_out(files[0].path));
        let rest = files.drop_first();
        assert forall|j: int| 0 <= j < i - 1 implies !leads_out((#[trigger] rest[j]).path) by {
            assert(rest[j] == files[j + 1]);
        }
        assert(rest[i - 1] == files[i]);
        lemma_stops_at(workdir, rest, i - 1);
    }
}

proof fn lemma_refused_paths(p: Seq<char>)
    ensures
        crate::bundle::bundle_path(p) is None <==> leads_out(p),
{
    lemma_dots_only(crate::host_path::path_parts(p));
}

proof fn lemma_dots_only(parts: Seq<Seq<char>>)
    ensures
        crate::bundle::without_dots(parts).len() == 0 <==> forall|k: int|
            0 <= k < parts.len() ==> #[trigger] parts[k] == "."@,
    decreases parts.len(),
{
    if parts.len() > 0 {
        let less = parts.drop_last();
        lemma_dots_only(less);
        assert(parts.last() == parts[parts.len() - 1]);
        if forall|k: int| 0 <= k < parts.len() ==> #[trigger] parts[k] == "."@ {
            assert forall|k: int| 0 <= k < less.len() implies #[trigger] less[k] == "."@ by {
                assert(less[k] == parts[k]);
            }
        }
        if crate::bundle::without_dots(parts).len() == 0 {
            assert forall|k: int| 0 <= k < parts.len() implies #[trigger] parts[k] == "."@ by {
                if k < less.len() {
                    assert(less[k] == parts[k]);
                }
            }
        }
    }
}

/// A file in the directory of an agent belongs to the agent of that name.
pub proof fn lemma_agents_live_in_their_directories(
    path: &VfsPath,
    what: &str,
    dir: Seq<Seq<char>>,
    name: Seq<char>,
    file: Seq<char>,
    r: Result<AgentPlace, String>,
)
    requires
        call_ensures(agent_place, (path, what), r),
        path@ == dir.push(name).push(file),
    ensures
        r matches Ok(p) && p.dir@ == dir.push(name) && p.name@ == name,
{
    assert(path@.drop_last() =~= dir.push(name));
}

/// An agent that was taken out of the registry is not found there any more,
/// and every other one is.
pub proof fn lemma_agents_are_taken_out(
    registry: &mut AgentRegistry,
    id: &AgentId,
    out: Option<AgentRecord>,
    other: &AgentId,
    before: Option<&AgentRecord>,
    after: Option<&AgentRecord>,
)
    requires
        call_ensures(AgentRegistry::get, (&*old(registry), other), before),
        call_ensures(AgentRegistry::remove, (registry, id), out),
        call_ensures(AgentRegistry::get, (&*final(registry), other), after),
    ensures
        other.0@ == id.0@ ==> after is None && (before is Some <==> out is Some),
        other.0@ != id.0@ ==> (before is Some <==> after is Some),
        other.0@ != id.0@ && before is Some ==> after->Some_0@ == before->Some_0@,
{
}

} // verus!
