//! What is kept by path comes in the order of paths: the files of checkpoints,
//! bundles and contexts, and the artifacts of reports.

use vstd::prelude::*;

use crate::bundle::{export_bundle, BundleFile, PackedModel, TaskBundle};
use crate::context::FileView;
use crate::guard::HashModel;
use crate::order::Ordered;
use crate::snapshot::{FileModel, SnapshotManifest};
use crate::task::{ArtifactHash, Task};

verus! {

proof fn lemma_part_order(a: Seq<char>, b: Seq<char>, c: Seq<char>)
    ensures
        crate::host_path::part_lt(a, b) || crate::host_path::part_lt(b, a) || a == b,
        !(crate::host_path::part_lt(a, b) && crate::host_path::part_lt(b, a)),
        !crate::host_path::part_lt(a, a),
        crate::host_path::part_lt(a, b) && crate::host_path::part_lt(b, c)
            ==> crate::host_path::part_lt(a, c),
{
    crate::order::lemma_text_lt_total(a, b);
    crate::order::lemma_text_lt_total(a, a);
    if crate::order::text_lt(a, b) && crate::order::text_lt(b, c) {
        crate::order::lemma_text_lt_transitive(a, b, c);
    }
}

proof fn lemma_parts_total(a: Seq<Seq<char>>, b: Seq<Seq<char>>)
    ensures
        crate::host_path::parts_lt(a, b) || crate::host_path::parts_lt(b, a) || a == b,
        !(crate::host_path::parts_lt(a, b) && crate::host_path::parts_lt(b, a)),
        !crate::host_path::parts_lt(a, a),
    decreases a.len(),
{
    if a.len() > 0 && b.len() > 0 {
        lemma_part_order(a[0], b[0], b[0]);
        if a[0] == b[0] {
            lemma_parts_total(a.drop_first(), b.drop_first());
            if a.drop_first() == b.drop_first() {
                assert(a =~= seq![a[0]] + a.drop_first());
                assert(b =~= seq![b[0]] + b.drop_first());
            }
        }
    } else if a.len() == 0 && b.len() == 0 {
        assert(a =~= b);
    }
    if a.len() > 0 {
        lemma_parts_total(a.drop_first(), a.drop_first());
    }
}

proof fn lemma_parts_transitive(a: Seq<Seq<char>>, b: Seq<Seq<char>>, c: Seq<Seq<char>>)
    requires
        crate::host_path::parts_lt(a, b),
        crate::host_path::parts_lt(b, c),
    ensures
        crate::host_path::parts_lt(a, c),
    decreases a.len(),
{
    if a.len() > 0 {
        lemma_part_order(a[0], b[0], c[0]);
        lemma_part_order(b[0], c[0], a[0]);
        lemma_part_order(c[0], a[0], b[0]);
        if a[0] == b[0] && b[0] == c[0] {
            lemma_parts_transitive(a.drop_first(), b.drop_first(), c.drop_first());
        }
    }
}

/// Paths are ordered by their components: each two are the same components or
/// one comes first, and the order is transitive.
pub proof fn lemma_paths_are_ordered(a: Seq<char>, b: Seq<char>, c: Seq<char>)
    ensures
        crate::host_path::path_lt(a, b) || crate::host_path::path_lt(b, a)
            || crate::host_path::path_parts(a) == crate::host_path::path_parts(b),
        !(crate::host_path::path_lt(a, b) && crate::host_path::path_lt(b, a)),
        !crate::host_path::path_lt(a, a),
        crate::host_path::path_lt(a, b) && crate::host_path::path_lt(b, c)
            ==> crate::host_path::path_lt(a, c),
        crate::host_path::path_lt(a, c) ==> crate::host_path::path_lt(a, b)
            || crate::host_path::path_lt(b, c),
{
    let x = crate::host_path::path_parts(a);
    let y = crate::host_path::path_parts(b);
    let z = crate::host_path::path_parts(c);
    lemma_parts_total(x, y);
    lemma_parts_total(x, x);
    lemma_parts_total(y, z);
    if crate::host_path::parts_lt(x, y) && crate::host_path::parts_lt(y, z) {
        lemma_parts_transitive(x, y, z);
    }
    if crate::host_path::parts_lt(x, z) && crate::host_path::parts_lt(y, x) {
        lemma_parts_transitive(y, x, z);
    }
}

/// A directory comes before everything below it.
pub proof fn lemma_directories_come_first(a: Seq<Seq<char>>, rest: Seq<Seq<char>>)
    requires
        rest.len() > 0,
    ensures
        crate::host_path::parts_lt(a, a + rest),
    decreases a.len(),
{
    if a.len() > 0 {
        lemma_directories_come_first(a.drop_first(), rest);
        assert((a + rest).drop_first() =~= a.drop_first() + rest);
    } else {
        assert(a + rest =~= rest);
    }
}

/// No path stands behind one that comes after it.
pub open spec fn in_path_order(paths: Seq<Seq<char>>) -> bool {
    forall|i: int, j: int|
        0 <= i < j < paths.len() ==> !crate::host_path::path_lt(
            #[trigger] paths[j],
            #[trigger] paths[i],
        )
}

proof fn lemma_files_sorted(files: Seq<FileModel>)
    ensures
        crate::order::in_order(crate::order::sorted(files)),
{
    assert forall|a: FileModel, b: FileModel, c: FileModel|
        #![trigger a.before(b), b.before(c)]
        a.before(b) && b.before(c) implies a.before(c) by {
        lemma_paths_are_ordered(a.path, b.path, c.path);
    }
    assert forall|a: FileModel, b: FileModel, c: FileModel|
        #![trigger a.before(c), a.before(b)]
        a.before(c) implies a.before(b) || b.before(c) by {
        lemma_paths_are_ordered(a.path, b.path, c.path);
    }
    assert forall|a: FileModel| !(#[trigger] a.before(a)) by {
        lemma_paths_are_ordered(a.path, a.path, a.path);
    }
    crate::order::lemma_sorted_in_order(files);
}

proof fn lemma_packed_sorted(files: Seq<PackedModel>)
    ensures
        crate::order::in_order(crate::order::sorted(files)),
{
    assert forall|a: PackedModel, b: PackedModel, c: PackedModel|
        #![trigger a.before(b), b.before(c)]
        a.before(b) && b.before(c) implies a.before(c) by {
        lemma_paths_are_ordered(a.path, b.path, c.path);
    }
    assert forall|a: PackedModel, b: PackedModel, c: PackedModel|
        #![trigger a.before(c), a.before(b)]
        a.before(c) implies a.before(b) || b.before(c) by {
        lemma_paths_are_ordered(a.path, b.path, c.path);
    }
    assert forall|a: PackedModel| !(#[trigger] a.before(a)) by {
        lemma_paths_are_ordered(a.path, a.path, a.path);
    }
    crate::order::lemma_sorted_in_order(files);
}

proof fn lemma_hashes_sorted(hashes: Seq<HashModel>)
    ensures
        crate::order::in_order(crate::order::sorted(hashes)),
{
    assert forall|a: HashModel, b: HashModel, c: HashModel|
        #![trigger a.before(b), b.before(c)]
        a.before(b) && b.before(c) implies a.before(c) by {
        lemma_paths_are_ordered(a.path, b.path, c.path);
    }
    assert forall|a: HashModel, b: HashModel, c: HashModel|
        #![trigger a.before(c), a.before(b)]
        a.before(c) implies a.before(b) || b.before(c) by {
        lemma_paths_are_ordered(a.path, b.path, c.path);
    }
    assert forall|a: HashModel| !(#[trigger] a.before(a)) by {
        lemma_paths_are_ordered(a.path, a.path, a.path);
    }
    crate::order::lemma_sorted_in_order(hashes);
}

/// The files that a model is shown come in the order of their paths.
pub proof fn lemma_shown_files_are_ordered(files: Seq<FileView>)
    ensures
        in_path_order(crate::order::sorted(files).map_values(|f: FileView| f.path)),
        crate::order::sorted(files).to_multiset() == files.to_multiset(),
{
    assert forall|a: FileView, b: FileView, c: FileView|
        #![trigger a.before(b), b.before(c)]
        a.before(b) && b.before(c) implies a.before(c) by {
        lemma_paths_are_ordered(a.path, b.path, c.path);
    }
    assert forall|a: FileView, b: FileView, c: FileView|
        #![trigger a.before(c), a.before(b)]
        a.before(c) implies a.before(b) || b.before(c) by {
        lemma_paths_are_ordered(a.path, b.path, c.path);
    }
    assert forall|a: FileView| !(#[trigger] a.before(a)) by {
        lemma_paths_are_ordered(a.path, a.path, a.path);
    }
    crate::order::lemma_sorted_in_order(files);
    crate::order::lemma_sorted_same_elements(files);
    let out = crate::order::sorted(files);
    let paths = out.map_values(|f: FileView| f.path);
    assert forall|i: int, j: int| 0 <= i < j < paths.len() implies !crate::host_path::path_lt(
        #[trigger] paths[j],
        #[trigger] paths[i],
    ) by {
        assert(!out[j].before(out[i]));
    }
}

/// A finished snapshot has the files that were noted, each once for each time
/// it was noted, in the order of their paths.
pub proof fn lemma_snapshots_are_ordered(m: SnapshotManifest, r: SnapshotManifest)
    requires
        call_ensures(SnapshotManifest::finish, (m,), r),
    ensures
        in_path_order(
            crate::snapshot::file_models(r.files@).map_values(|f: FileModel| f.path),
        ),
        crate::snapshot::file_models(r.files@).to_multiset() == crate::snapshot::file_models(
            m.files@,
        ).to_multiset(),
{
    let files = crate::snapshot::file_models(m.files@);
    lemma_files_sorted(files);
    crate::order::lemma_sorted_same_elements(files);
    let out = crate::order::sorted(files);
    let paths = out.map_values(|f: FileModel| f.path);
    assert forall|i: int, j: int| 0 <= i < j < paths.len() implies !crate::host_path::path_lt(
        #[trigger] paths[j],
        #[trigger] paths[i],
    ) by {
        assert(!out[j].before(out[i]));
    }
}

/// A bundle holds what it was made of: the files, in the order of their paths,
/// the hashes and the trace, and who it comes from with what status.
pub proof fn lemma_bundles_are_ordered(
    task: &Task,
    files: Vec<BundleFile>,
    hashes: Vec<ArtifactHash>,
    trace: Vec<u8>,
    b: TaskBundle,
)
    requires
        call_ensures(export_bundle, (task, files, hashes, trace), b),
    ensures
        in_path_order(
            crate::bundle::packed_models(b.files@).map_values(|f: PackedModel| f.path),
        ),
        crate::bundle::packed_models(b.files@).to_multiset() == crate::bundle::packed_models(
            files@,
        ).to_multiset(),
        b.source_task_id == task.id,
        b.source_status == task.status,
        b.artifact_hashes@ == hashes@,
        b.trace_jsonl@ == trace@,
{
    let packed = crate::bundle::packed_models(files@);
    lemma_packed_sorted(packed);
    crate::order::lemma_sorted_same_elements(packed);
    let out = crate::order::sorted(packed);
    let paths = out.map_values(|f: PackedModel| f.path);
    assert forall|i: int, j: int| 0 <= i < j < paths.len() implies !crate::host_path::path_lt(
        #[trigger] paths[j],
        #[trigger] paths[i],
    ) by {
        assert(!out[j].before(out[i]));
    }
}

/// The artifacts of a report come in the order of their paths.
pub proof fn lemma_reported_artifacts_are_ordered(
    task: crate::task::TaskModel,
    reads: Seq<crate::bundle::ArtifactRead>,
)
    ensures
        crate::bundle::hashes_of(task, reads) matches Ok(hashes) ==> in_path_order(
            hashes.map_values(|h: HashModel| h.path),
        ),
{
    if let Ok(listed) = crate::bundle::artifact_hashes(
        task.workdir,
        task.manifest.mandatory_artifacts,
        reads,
        reads.len() as int,
    ) {
        lemma_hashes_sorted(listed);
        let out = crate::order::sorted(listed);
        let paths = out.map_values(|h: HashModel| h.path);
        assert forall|i: int, j: int| 0 <= i < j < paths.len() implies !crate::host_path::path_lt(
            #[trigger] paths[j],
            #[trigger] paths[i],
        ) by {
            assert(!out[j].before(out[i]));
        }
    }
}

} // verus!
