//! What the library is for, from end to end: a rollback undoes a task, a
//! bundle carries a directory over, a view translates paths, and what a model
//! says wrongly is refused.

use vstd::prelude::*;

use crate::adapter::{parse_actions, AdapterError, LlmAction};
use crate::bundle::{
    export_bundle, import_bundle, BundleError, BundleFile, ImportPlan, PackedModel, TaskBundle,
};
use crate::cap::{MountMode, NamespaceView};
use crate::output::inspect_lines;
use crate::scan::tag;
use crate::snapshot::{
    visit_for_backup, visit_for_rollback, CurrentModel, FileModel, Visit,
};
use crate::task::{ArtifactHash, Task};
use crate::task_fs::TransactionError;
use crate::vfs_path::{VfsPath, VfsResult};
use crate::walk_laws::{
    class_of, gathers_contents, gathers_dirs, gathers_files, is_kept_dir, is_tree, kept_files,
    leads_down, Tree,
};

verus! {

/// Something stands at the place of each file of the snapshot for which
/// `exists` says so: a file or a directory of the tree.
pub open spec fn tells_presence(exists: Seq<bool>, files: Seq<FileModel>, tree: Tree) -> bool {
    &&& exists.len() == files.len()
    &&& forall|i: int|
        0 <= i < files.len() ==> #[trigger] exists[i] == (kept_files(tree).dom().contains(
            crate::host_path::path_parts(files[i].path),
        ) || is_kept_dir(tree, crate::host_path::path_parts(files[i].path)))
}

/// A rollback undoes a task: whatever the directory held when the checkpoint
/// was made and whatever it holds now, the steps from what the two walks
/// gather bring back exactly the files of the checkpoint, and leave each of
/// its directories standing.
pub proof fn lemma_rollbacks_undo_tasks<'a>(
    root: &'a str,
    at: spec_fn(Seq<Seq<char>>) -> &'a str,
    then: Tree,
    found_then: spec_fn(Seq<Seq<char>>) -> Visit,
    files: Seq<FileModel>,
    dirs: Seq<Seq<char>>,
    now: Tree,
    found_now: spec_fn(Seq<Seq<char>>) -> Visit,
    current: Seq<CurrentModel>,
    current_dirs: Seq<Seq<char>>,
    exists: Seq<bool>,
    emptied: Seq<bool>,
)
    requires
        is_tree(then),
        forall|key: Seq<Seq<char>>| #[trigger]
            then.dom().contains(key) ==> {
                &&& !(then[key] is Symlink)
                &&& leads_down(root@, at(key)@, key)
                &&& call_ensures(
                    visit_for_backup,
                    (root, at(key), class_of(then[key])),
                    Ok::<Visit, TransactionError>(found_then(key)),
                )
            },
        gathers_files(files, then, found_then),
        gathers_dirs(dirs, then, found_then),
        is_tree(now),
        forall|key: Seq<Seq<char>>| #[trigger]
            now.dom().contains(key) ==> {
                &&& leads_down(root@, at(key)@, key)
                &&& call_ensures(
                    visit_for_rollback,
                    (root, at(key), class_of(now[key])),
                    Ok::<Visit, TransactionError>(found_now(key)),
                )
            },
        gathers_contents(current, now, found_now),
        gathers_dirs(current_dirs, now, found_now),
        tells_presence(exists, files, now),
        crate::snapshot::no_collision(kept_files(now), kept_files(then)),
    ensures
        crate::snapshot::rollback_plan(files, dirs, current, exists, current_dirs) matches Ok(ops)
            ==> {
            &&& crate::snapshot::apply_ops(kept_files(now), kept_files(then), ops) == kept_files(
                then,
            )
            &&& forall|key: Seq<Seq<char>>| #[trigger]
                is_kept_dir(then, key) ==> crate::snapshot::stands_after(
                    current_dirs,
                    ops,
                    emptied,
                    key,
                )
        },
{
    crate::walk_laws::lemma_checkpoints_are_snapshots(root, at, then, found_then, files, dirs);
    crate::walk_laws::lemma_rollbacks_list_everything(
        root,
        at,
        now,
        found_now,
        current,
        current_dirs,
    );
    assert(crate::snapshot::is_presence_in(exists, files, kept_files(now), current_dirs)) by {
        assert forall|i: int| 0 <= i < files.len() implies #[trigger] exists[i] == (kept_files(
            now,
        ).dom().contains(crate::host_path::path_parts(files[i].path))
            || crate::snapshot::dir_known(current_dirs, files[i].path)) by {
            let key = crate::host_path::path_parts(files[i].path);
            assert(crate::snapshot::dir_at(current_dirs, key) == is_kept_dir(now, key));
            lemma_known_is_at(current_dirs, files[i].path);
        }
    }
    crate::snapshot::lemma_rollback_restores_snapshot(
        files,
        dirs,
        current,
        exists,
        current_dirs,
        kept_files(now),
        kept_files(then),
    );
    if let Ok(ops) = crate::snapshot::rollback_plan(files, dirs, current, exists, current_dirs) {
        assert forall|key: Seq<Seq<char>>| #[trigger]
            is_kept_dir(then, key) implies crate::snapshot::stands_after(
            current_dirs,
            ops,
            emptied,
            key,
        ) by {
            assert(crate::snapshot::dir_at(dirs, key));
            let i = choose|i: int|
                0 <= i < dirs.len() && crate::host_path::path_parts(#[trigger] dirs[i]) == key;
            crate::snapshot::lemma_rollback_restores_directories(
                files,
                dirs,
                current,
                exists,
                current_dirs,
                emptied,
                i,
            );
        }
    }
}

proof fn lemma_known_is_at(dirs: Seq<Seq<char>>, p: Seq<char>)
    ensures
        crate::snapshot::dir_known(dirs, p) == crate::snapshot::dir_at(
            dirs,
            crate::host_path::path_parts(p),
        ),
{
    let key = crate::host_path::path_parts(p);
    if crate::snapshot::dir_known(dirs, p) {
        let i = choose|i: int|
            0 <= i < dirs.len() && crate::host_path::path_parts(#[trigger] dirs[i]) == key;
        assert(crate::snapshot::dir_at(dirs, key));
    }
    if crate::snapshot::dir_at(dirs, key) {
        let i = choose|i: int|
            0 <= i < dirs.len() && crate::host_path::path_parts(#[trigger] dirs[i]) == key;
        assert(crate::snapshot::dir_known(dirs, p));
    }
}

/// A bundle carries a directory over: what is exported and then imported into
/// another directory is written there, each file with its contents at its path
/// below it, none more and none less, and nothing is refused.
pub proof fn lemma_bundles_carry_over(
    task: &Task,
    files: Vec<BundleFile>,
    hashes: Vec<ArtifactHash>,
    trace: Vec<u8>,
    b: TaskBundle,
    dir: &str,
    r: Result<ImportPlan, BundleError>,
)
    requires
        call_ensures(export_bundle, (task, files, hashes, trace), b),
        forall|i: int|
            0 <= i < files@.len() ==> crate::bundle::is_packed_path(
                (#[trigger] files@[i]).relative_path@,
            ),
        call_ensures(import_bundle, (b, dir), r),
    ensures
        r matches Ok(plan) && {
            let workdir = crate::host_path::normalized(dir@);
            let came = crate::bundle::packed_models(plan.files@);
            &&& plan.refused is None
            &&& plan.workdir@ == workdir
            &&& came.len() == files@.len()
            &&& forall|i: int|
                0 <= i < files@.len() ==> came.contains(
                    PackedModel {
                        path: crate::host_path::joined(
                            workdir,
                            (#[trigger] files@[i]).relative_path@,
                        ),
                        bytes: files@[i].bytes@,
                    },
                )
        },
{
    let packed = crate::bundle::packed_models(files@);
    assert forall|i: int| 0 <= i < packed.len() implies crate::bundle::is_packed_path(
        (#[trigger] packed[i]).path,
    ) by {
        assert(packed[i].path == files@[i].relative_path@);
    }
    let workdir = crate::host_path::normalized(dir@);
    crate::bundle::lemma_bundle_round_trip(workdir, packed);
    crate::order::lemma_sorted_same_elements(packed);
    let out = crate::order::sorted(packed);
    let came = crate::bundle::taken_into(workdir, out);
    assert forall|i: int| 0 <= i < files@.len() implies came.contains(
        PackedModel {
            path: crate::host_path::joined(workdir, (#[trigger] files@[i]).relative_path@),
            bytes: files@[i].bytes@,
        },
    ) by {
        assert(packed.contains(packed[i]));
        crate::order::lemma_sorted_contains(packed, packed[i]);
        let k = choose|k: int| 0 <= k < out.len() && out[k] == packed[i];
        assert(came[k] == PackedModel {
            path: crate::host_path::joined(workdir, files@[i].relative_path@),
            bytes: files@[i].bytes@,
        });
    }
}

/// A view translates a path through the mount with the longest path that
/// covers it: what follows that path follows the place it leads to, unchanged.
/// A path that no mount covers is denied.
pub proof fn lemma_views_translate(
    view: &NamespaceView,
    path: &VfsPath,
    r: VfsResult<(VfsPath, MountMode)>,
)
    requires
        call_ensures(NamespaceView::resolve, (view, path), r),
    ensures
        match r {
            Ok((target, mode)) => exists|i: int|
                {
                    &&& 0 <= i < view@.mounts.len()
                    &&& (#[trigger] view@.mounts[i]).virtual_path.is_prefix_of(path@)
                    &&& target@ == view@.mounts[i].real_path + path@.skip(
                        view@.mounts[i].virtual_path.len() as int,
                    )
                    &&& mode == view@.mounts[i].mode
                    &&& forall|j: int|
                        0 <= j < view@.mounts.len() && (
                        #[trigger] view@.mounts[j]).virtual_path.is_prefix_of(path@)
                            ==> view@.mounts[j].virtual_path.len()
                            <= view@.mounts[i].virtual_path.len()
                },
            Err(e) => e is PermissionDenied && forall|j: int|
                0 <= j < view@.mounts.len() ==> !(
                #[trigger] view@.mounts[j]).virtual_path.is_prefix_of(path@),
        },
{
    crate::cap::lemma_longest_prefix_wins(view@.mounts, path@);
    if let Some(m) = crate::cap::mount_for(view@.mounts, path@) {
        let i = choose|i: int| 0 <= i < view@.mounts.len() && view@.mounts[i] == m;
        assert(view@.mounts[i].virtual_path.is_prefix_of(path@));
    }
}

/// A command succeeds by its exit code alone: 0 is a success, anything else a
/// failure, and so is none, which is recorded as -1.
pub proof fn lemma_exit_codes_decide(code: Option<i32>)
    ensures
        crate::execution::outcome_status(code) is Success <==> (code matches Some(c) && c == 0),
        crate::execution::outcome_status(code) is Success || crate::execution::outcome_status(code)
            is Failed,
        code matches Some(c) ==> crate::execution::recorded_code(code) == c,
        code is None ==> crate::execution::recorded_code(code) == -1,
{
}

/// A write without a path is refused, and with it the whole reply.
pub proof fn lemma_writes_need_a_path(
    input: &str,
    gap: Seq<char>,
    name: Seq<char>,
    rest: Seq<char>,
    r: Result<Vec<LlmAction>, AdapterError>,
)
    requires
        !gap.contains('<'),
        crate::scan::is_name(name),
        "write"@.is_prefix_of(name),
        !crate::text::contains_text(tag(name), "path"@ + "=\""@),
        input@ == gap + (tag(name) + rest),
        call_ensures(parse_actions, (input,), r),
    ensures
        r matches Err(AdapterError::InvalidAction(m)) && m@ == "<write> missing path attribute"@,
{
    reveal_strlit("<write");
    reveal_strlit("write");
    let open = "<write"@;
    assert("write"@ == name.subrange(0, 5));
    assert(open =~= (seq!['<'] + name).subrange(0, 6)) by {
        assert(open =~= seq!['<'] + "write"@);
        assert(forall|i: int| 0 <= i < 5 ==> name[i] == #[trigger] name.subrange(0, 5)[i]);
    }
    crate::reply_laws::lemma_opening_read(gap, open, name, rest);
    crate::scan::lemma_passes_text(gap, open);
    let none = Seq::<char>::empty();
    assert(gap + (tag(name) + rest) =~= none + (gap + (tag(name) + rest)));
    crate::reply_laws::lemma_find_behind(none, gap, tag(name) + rest, open);
    let needle = "path"@ + "=\""@;
    crate::text::lemma_find_from(tag(name), needle, 0);
    if let Some(i) = crate::text::find_from(tag(name), needle, 0) {
        assert(crate::text::occurs_at(tag(name), needle, i));
    }
}

/// What is shown of a bundle begins with its version, its source and its
/// sizes, and then has a line for each file and each artifact, with its path
/// and its size.
pub proof fn lemma_inspections_show_everything(b: &TaskBundle, r: Vec<String>, i: int)
    requires
        call_ensures(inspect_lines, (b,), r),
    ensures
        ({
            let shown = crate::text::texts(r@);
            let files = b.files@.len();
            &&& shown.len() >= 7 + files + b.artifact_hashes@.len()
            &&& 0 <= i < files ==> ("file path="@ + b.files@[i].relative_path@ + " bytes="@
                + crate::text::decimal(b.files@[i].bytes@.len())).is_prefix_of(shown[5 + i])
            &&& 0 <= i < b.artifact_hashes@.len() ==> ("artifact path="@
                + b.artifact_hashes@[i].path@ + " bytes="@ + crate::text::decimal(
                b.artifact_hashes@[i].bytes as nat,
            )).is_prefix_of(shown[(5 + files + i) as int])
            &&& shown[(5 + files + b.artifact_hashes@.len()) as int] == "trace.begin"@
            &&& shown.last() == "trace.end"@
        }),
{
    reveal_strlit("file path=");
    reveal_strlit("artifact path=");
    reveal_strlit("file");
    reveal_strlit("artifact");
    reveal_strlit(" path=");
    let shown = crate::text::texts(r@);
    let files = b.files@.len();
    assert("file path="@ =~= "file"@ + " path="@);
    assert("artifact path="@ =~= "artifact"@ + " path="@);
    if 0 <= i < files {
        let head = "file path="@ + b.files@[i].relative_path@ + " bytes="@ + crate::text::decimal(
            b.files@[i].bytes@.len(),
        );
        assert(head =~= shown[5 + i].subrange(0, head.len() as int));
    }
    if 0 <= i < b.artifact_hashes@.len() {
        let head = "artifact path="@ + b.artifact_hashes@[i].path@ + " bytes="@
            + crate::text::decimal(b.artifact_hashes@[i].bytes as nat);
        let line = shown[(5 + files + i) as int];
        assert(head =~= line.subrange(0, head.len() as int));
    }
}

} // verus!
