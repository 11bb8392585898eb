//! What hosting an agent comes to, call by call: its files, its triggers and
//! its record; and what an operator is shown of its events.

use vstd::prelude::*;

use crate::agent_manifest::Manifest;
use crate::handlers::{
    commit_agent, prepare_agent, store_output, AgentPlace, Handler, HandlerModel, OutputStep,
};
use crate::json_value::{json_bool, json_integer, json_member, json_text};
use crate::output::{emit_trace_observability, observe_event, LogLine};
use crate::registry::{AgentRecord, AgentRegistry};
use crate::runtime::AgentId;
use crate::vfs::{DirEntry, EntryKind, EntryModel, EntryView, HostListing, ReadStep, Vfs};
use crate::vfs_path::{Capability, VfsPath, VfsResult};
use crate::watch::{PathPattern, WatchTable};

verus! {

/// An agent that was taken up is known by its name, and a write to one of its
/// triggers calls what the last trigger of that path names.
pub proof fn lemma_agents_are_called(
    place: AgentPlace,
    manifest: Manifest,
    log: u64,
    registry: &mut AgentRegistry,
    watch: &mut WatchTable<Handler>,
    done: VfsResult<()>,
    i: int,
    path: &VfsPath,
    handler: Option<&Handler>,
    id: &AgentId,
    record: Option<&AgentRecord>,
)
    requires
        old(registry).wf(),
        call_ensures(
            commit_agent,
            (place, manifest, log, Ok::<(), crate::vfs_path::VfsError>(()), registry, watch),
            done,
        ),
        0 <= i < manifest@.triggers.len(),
        forall|j: int|
            i < j < manifest@.triggers.len() ==> (#[trigger] manifest@.triggers[j]).path
                != manifest@.triggers[i].path,
        path@ == place.dir@.push(manifest@.triggers[i].path),
        call_ensures(WatchTable::<Handler>::match_path, (&*final(watch), path), handler),
        id.0@ == place.name@,
        call_ensures(AgentRegistry::get, (&*final(registry), id), record),
    ensures
        handler matches Some(h) && (h matches Handler::Trigger(t) && t.export@
            == manifest@.triggers[i].export),
        record matches Some(rec) && rec.manifest@ == manifest@ && rec.agent_dir@ == place.dir@
            && rec@.log_buffer == log,
{
    crate::handlers::lemma_triggers_are_routed(
        old(watch)@,
        place.name@,
        place.dir@,
        manifest@.triggers,
        i,
    );
    assert(record->Some_0@.manifest == manifest@);
    assert(record->Some_0@.agent_dir == place.dir@);
}

/// A handler for exactly one path is the one that a write to that path finds,
/// once it is registered, and no other route is lost but one of its label.
pub proof fn lemma_registered_handlers_are_found(
    watch: &mut WatchTable<Handler>,
    label: String,
    pattern: PathPattern,
    handler: Handler,
    path: &VfsPath,
    found: Option<&Handler>,
    names: Vec<String>,
    other: Seq<char>,
)
    requires
        call_ensures(PathPattern::exact, (path,), pattern),
        call_ensures(WatchTable::<Handler>::register, (watch, label, pattern, handler), ()),
        call_ensures(WatchTable::<Handler>::match_path, (&*final(watch), path), found),
        call_ensures(WatchTable::<Handler>::labels, (&*final(watch),), names),
    ensures
        found matches Some(h) && h@ == handler@,
        crate::text::texts(names@).contains(label@),
        (exists|k: int| 0 <= k < old(watch)@.len() && (#[trigger] old(watch)@[k]).label == other)
            ==> crate::text::texts(names@).contains(other),
{
    let added = crate::watch::RouteModel {
        label: label@,
        pattern: pattern@,
        handler: handler@,
    };
    let rest = crate::watch::without_label(old(watch)@, label@);
    crate::watch::lemma_last_exact_is_taken(rest, added, path@);
    let all = rest.push(added);
    let shown = crate::text::texts(names@);
    assert(all[rest.len() as int] == added);
    assert(shown[rest.len() as int] == label@);
    if exists|k: int| 0 <= k < old(watch)@.len() && (#[trigger] old(watch)@[k]).label == other {
        let k = choose|k: int| 0 <= k < old(watch)@.len() && (#[trigger] old(watch)@[k]).label
            == other;
        let keep = |r: crate::watch::RouteModel<HandlerModel>| r.label != label@;
        if other != label@ {
            old(watch)@.lemma_filter_contains(keep, k);
            assert(rest == old(watch)@.filter(keep));
            assert(rest.contains(old(watch)@[k]));
            let m = choose|m: int| 0 <= m < rest.len() && rest[m] == old(watch)@[k];
            assert(all[m] == rest[m]);
            assert(shown[m] == other);
        }
    }
}

/// An agent that is readied has a file for each of its triggers and one for
/// its output, each empty where there was none, and nothing that stood before
/// is lost but what stood in the place of its log.
pub proof fn lemma_agents_have_their_files(
    vfs: &mut Vfs,
    dir: &VfsPath,
    manifest: &Manifest,
    log: u64,
    r: VfsResult<Option<VfsPath>>,
    name: Seq<char>,
    path: Seq<Seq<char>>,
)
    requires
        call_ensures(prepare_agent, (vfs, dir, manifest, log), r),
        r is Ok,
        name == "output"@ || exists|i: int|
            0 <= i < manifest@.triggers.len() && (#[trigger] manifest@.triggers[i]).path == name,
        name != "log"@,
        old(vfs)@.tree.dom().contains(path),
        path != dir@.push("log"@),
    ensures
        final(vfs)@.tree.dom().contains(dir@.push(name)),
        !old(vfs)@.tree.dom().contains(dir@.push(name)) ==> final(vfs)@.tree[dir@.push(name)]
            == EntryModel::File(Seq::empty()),
        final(vfs)@.tree.dom().contains(path) && final(vfs)@.tree[path] == old(vfs)@.tree[path],
        final(vfs)@.tree.dom().contains(dir@.push("log"@)) && final(vfs)@.tree[dir@.push("log"@)]
            == EntryModel::Synthetic(log),
{
    let files = crate::handlers::agent_files(manifest@.triggers);
    let tree = old(vfs)@.tree;
    if name == "output"@ {
        assert(files[manifest@.triggers.len() as int] == name);
    } else {
        let i = choose|i: int|
            0 <= i < manifest@.triggers.len() && (#[trigger] manifest@.triggers[i]).path == name;
        assert(files[i] == name);
    }
    let k = choose|k: int| 0 <= k < files.len() && files[k] == name;
    lemma_made_files(tree, dir@, files, k, path);
    assert(dir@.push(name).last() == name);
    assert(dir@.push("log"@).last() == "log"@);
}

proof fn lemma_made_files(
    tree: crate::vfs::Tree,
    dir: Seq<Seq<char>>,
    names: Seq<Seq<char>>,
    k: int,
    path: Seq<Seq<char>>,
)
    requires
        0 <= k < names.len() || tree.dom().contains(path),
    ensures
        ({
            let made = crate::handlers::with_files(tree, dir, names);
            &&& tree.dom().contains(path) ==> made.dom().contains(path) && made[path] == tree[path]
            &&& 0 <= k < names.len() ==> made.dom().contains(dir.push(names[k]))
            &&& 0 <= k < names.len() && !tree.dom().contains(dir.push(names[k]))
                ==> made[dir.push(names[k])] == EntryModel::File(Seq::empty())
        }),
    decreases names.len(),
{
    if names.len() > 0 {
        let less = names.drop_last();
        let at = dir.push(names.last());
        if k < less.len() || tree.dom().contains(path) {
            lemma_made_files(tree, dir, less, k, path);
        }
        if k == names.len() - 1 && !tree.dom().contains(at) {
            if crate::handlers::with_files(tree, dir, less).dom().contains(at) {
                lemma_only_made(tree, dir, less, at);
            }
        }
    }
}

proof fn lemma_only_made(
    tree: crate::vfs::Tree,
    dir: Seq<Seq<char>>,
    names: Seq<Seq<char>>,
    at: Seq<Seq<char>>,
)
    requires
        !tree.dom().contains(at),
        crate::handlers::with_files(tree, dir, names).dom().contains(at),
    ensures
        crate::handlers::with_files(tree, dir, names)[at] == EntryModel::File(Seq::empty()),
    decreases names.len(),
{
    if names.len() > 0 {
        let less = names.drop_last();
        if crate::handlers::with_files(tree, dir, less).dom().contains(at) {
            lemma_only_made(tree, dir, less, at);
        }
    }
}

/// What an agent puts out is read back from the file `output` in its
/// directory.
pub proof fn lemma_outputs_are_read_back(
    vfs: &mut Vfs,
    dir: &VfsPath,
    out: Vec<u8>,
    r: VfsResult<OutputStep>,
    reader: &Capability,
    path: &VfsPath,
    got: VfsResult<ReadStep>,
)
    requires
        old(vfs).wf(),
        call_ensures(store_output, (vfs, dir, out), r),
        r matches Ok(OutputStep::Stored(ev)),
        path@ == dir@.push("output"@),
        call_ensures(Vfs::read, (&*final(vfs), reader, path), got),
    ensures
        got matches Ok(ReadStep::File(b)) && crate::arena::bytes_contents(b) == out@,
{
    let tree = old(vfs)@.tree;
    if let crate::vfs::Lookup::Found(EntryModel::File(was)) = crate::vfs::lookup(tree, path@) {
        crate::vfs::lemma_read_after_write(tree, path@, was, out@, path@);
    } else {
        assert(path@.drop_last() =~= dir@);
        crate::vfs::lemma_read_after_create(tree, path@, out@);
    }
}

/// An access to a file is shown with its kind, its path and whether it was
/// allowed.
pub proof fn lemma_accesses_are_shown(
    v: &serde_json::Value,
    event: serde_json::Value,
    access: serde_json::Value,
    path: serde_json::Value,
    allowed: serde_json::Value,
    kind: Seq<char>,
    at: Seq<char>,
    yes: bool,
    r: Option<LogLine>,
)
    requires
        call_ensures(observe_event, (v,), r),
        json_member(*v, "FileAccess"@) == Some(event),
        json_member(event, "access"@) == Some(access),
        json_text(access) == Some(kind),
        json_member(event, "path"@) == Some(path),
        json_text(path) == Some(at),
        json_member(event, "allowed"@) == Some(allowed),
        json_bool(allowed) == Some(yes),
    ensures
        r matches Some(l) && l.level is Step && l.text@ == "file_access: "@
            + crate::text::lowered(kind) + " "@ + at + (if yes {
            " (allowed)"@
        } else {
            " (denied)"@
        }),
{
    assert(r->Some_0@.level is Step);
}

/// A violation is shown with its reason, as a warning.
pub proof fn lemma_violations_are_shown(
    v: &serde_json::Value,
    event: serde_json::Value,
    reason: serde_json::Value,
    why: Seq<char>,
    r: Option<LogLine>,
)
    requires
        call_ensures(observe_event, (v,), r),
        json_member(*v, "FileAccess"@) is None,
        json_member(*v, "ViolationOccurred"@) == Some(event),
        json_member(event, "reason"@) == Some(reason),
        json_text(reason) == Some(why),
    ensures
        r matches Some(l) && l.level is Warn && l.text@ == "violation: "@ + why,
{
    assert(r->Some_0@.level is Warn);
}

/// A command is shown as it was run, with its exit code.
pub proof fn lemma_commands_are_shown(
    v: &serde_json::Value,
    event: serde_json::Value,
    command: serde_json::Value,
    line: Seq<char>,
    code: serde_json::Value,
    n: i64,
    r: Option<LogLine>,
)
    requires
        call_ensures(observe_event, (v,), r),
        json_member(*v, "FileAccess"@) is None,
        json_member(*v, "ViolationOccurred"@) is None,
        json_member(*v, "CommandExecuted"@) == Some(event),
        json_member(event, "command"@) == Some(command),
        json_text(command) == Some(line),
        json_member(event, "exit_code"@) == Some(code),
        json_integer(code) == Some(n),
    ensures
        r matches Some(l) && l.level is Exec && l.text@ == "command: "@ + line + " exit_code="@
            + crate::text::signed_decimal(n as int),
{
    assert(r->Some_0@.level is Exec);
}

/// Nothing of a trace is passed over: every line that holds an event to be
/// shown is shown, and nothing else is.
pub proof fn lemma_traces_are_shown(
    lines: &Vec<String>,
    i: int,
    v: &serde_json::Value,
    one: Option<LogLine>,
    r: Vec<LogLine>,
)
    requires
        call_ensures(emit_trace_observability, (lines,), r),
        0 <= i < lines@.len(),
        crate::json_value::json_text_document(lines@[i]@) == Ok::<serde_json::Value, Seq<char>>(*v),
        call_ensures(observe_event, (v,), one),
    ensures
        r@.len() <= lines@.len(),
        one matches Some(l) ==> exists|k: int| 0 <= k <= i && k < r@.len() && (#[trigger] r@[k])@ == l@,
{
    let all = crate::text::texts(lines@);
    assert(all[i] == lines@[i]@);
    assert(all.len() == lines@.len());
    lemma_shown_one(all, i);
    let shown = crate::output::shown_lines(all);
    assert(crate::output::line_models(r@).len() == r@.len());
    if let Some(l) = one {
        let k = choose|k: int| 0 <= k <= i && k < shown.len() && shown[k] == l@;
        assert(crate::output::line_models(r@)[k] == r@[k]@);
    }
}

proof fn lemma_shown_one(lines: Seq<Seq<char>>, i: int)
    requires
        0 <= i < lines.len(),
    ensures
        crate::output::shown_lines(lines).len() <= lines.len(),
        crate::json_value::json_text_document(lines[i]) matches Ok(v) && (
        crate::output::event_line(v) is Some) ==> exists|k: int|
            0 <= k <= i && k < crate::output::shown_lines(lines).len() && (
            #[trigger] crate::output::shown_lines(lines)[k]) == crate::output::event_line(
                crate::json_value::json_text_document(lines[i])->Ok_0,
            )->Some_0,
    decreases lines.len(),
{
    let less = lines.drop_last();
    let before = crate::output::shown_lines(less);
    let now = crate::output::shown_lines(lines);
    if less.len() > 0 {
        lemma_shown_one(less, if i < less.len() { i } else { 0 });
    }
    if i < less.len() {
        assert(less[i] == lines[i]);
        if let Ok(v) = crate::json_value::json_text_document(lines[i]) {
            if crate::output::event_line(v) is Some {
                let k = choose|k: int|
                    0 <= k <= i && k < before.len() && (#[trigger] before[k])
                        == crate::output::event_line(v)->Some_0;
                assert(now[k] == before[k]);
            }
        }
    } else {
        assert(lines[i] == lines.last());
        if let Ok(v) = crate::json_value::json_text_document(lines[i]) {
            if crate::output::event_line(v) is Some {
                assert(now[before.len() as int] == crate::output::event_line(v)->Some_0);
            }
        }
    }
}


/// A listing shows what stands in the directory, in memory as it is there, and
/// from the host what memory does not hide, and nothing else.
pub proof fn lemma_directories_are_listed(
    vfs: &Vfs,
    path: &VfsPath,
    names: Vec<DirEntry>,
    r: VfsResult<Vec<DirEntry>>,
    name: Seq<char>,
    i: int,
)
    requires
        call_ensures(Vfs::list, (vfs, path, HostListing::Dir(names)), r),
        crate::vfs::lookup(vfs@.tree, path@) == crate::vfs::Lookup::Found(EntryModel::Dir),
    ensures
        r matches Ok(out) && {
            let shown = crate::vfs::entry_views(out@);
            &&& vfs@.tree.dom().contains(path@.push(name)) ==> shown.contains(
                EntryView { name, kind: standing(vfs@.tree[path@.push(name)]) },
            )
            &&& 0 <= i < names@.len() && !vfs@.tree.dom().contains(path@.push(names@[i]@.name))
                ==> exists|k: int| 0 <= k < shown.len() && (#[trigger] shown[k]).name
                == names@[i]@.name
            &&& 0 <= i < shown.len() ==> if vfs@.tree.dom().contains(path@.push(shown[i].name)) {
                shown[i].kind == standing(vfs@.tree[path@.push(shown[i].name)])
            } else {
                crate::vfs::entry_views(names@).contains(shown[i])
            }
        },
{
    let base = choose|base: Seq<EntryView>| #[trigger]
        crate::vfs::arena_listing(base, vfs@.tree, path@) && crate::vfs::listing_of(
            r,
            base,
            HostListing::Dir(names),
        );
    let host = crate::vfs::entry_views(names@);
    let all = crate::vfs::merged(base, host);
    let shown = crate::vfs::entry_views(r->Ok_0@);
    assert(shown == crate::order::sorted(all));
    if vfs@.tree.dom().contains(path@.push(name)) {
        let k = choose|k: int| 0 <= k < base.len() && (#[trigger] base[k]).name == name;
        crate::data_laws::lemma_listings_lose_nothing(base, host, 0);
        assert(all[k] == base[k]);
        crate::order::lemma_sorted_contains(all, base[k]);
        assert(base[k] == (EntryView { name, kind: standing(vfs@.tree[path@.push(name)]) }));
    }
    if 0 <= i < names@.len() {
        crate::data_laws::lemma_listings_lose_nothing(base, host, i);
        assert(host[i] == names@[i]@);
        let k = choose|k: int| 0 <= k < all.len() && (#[trigger] all[k]).name == host[i].name;
        crate::order::lemma_sorted_contains(all, all[k]);
        let m = choose|m: int| 0 <= m < shown.len() && shown[m] == all[k];
        assert(shown[m].name == names@[i]@.name);
    }
    if 0 <= i < shown.len() {
        crate::order::lemma_sorted_contains(all, shown[i]);
        assert(shown.contains(shown[i]));
        let k = choose|k: int| 0 <= k < all.len() && all[k] == shown[i];
        crate::data_laws::lemma_listings_lose_nothing(base, host, k);
        if k < base.len() {
            assert(base[k] == all[k]);
        } else if vfs@.tree.dom().contains(path@.push(shown[i].name)) {
            let m = choose|m: int| 0 <= m < base.len() && (#[trigger] base[m]).name == shown[i].name;
            assert(crate::vfs::has_name(base, shown[i].name));
        }
    }
}

/// What stands there.
pub open spec fn standing(e: EntryModel) -> EntryKind {
    if e is Dir {
        EntryKind::Dir
    } else if e is File {
        EntryKind::File
    } else {
        EntryKind::Synthetic
    }
}

} // verus!
