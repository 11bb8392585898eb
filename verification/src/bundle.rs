//! Bundles: the files, artifacts and trace of a task, packed to be handed
//! over to another one.

use vstd::prelude::*;

use crate::guard::HashModel;
use crate::host_path::{
    components, file_name, join_path, normalize_path, path_before, resolve_task_path, strip_prefix,
};
use crate::ids::TaskId;
use crate::order::{sort_stable, Ordered, Ranked};
use crate::snapshot::{fnv64, EntryClass, Visit};
use crate::task::{ArtifactHash, Task, TaskStatus};
use crate::text::{cat, cat3, decimal_text, join_texts, owned, same_text};

verus! {

/// The version of the bundles that this library makes and takes.
pub const BUNDLE_VERSION: u32 = 1;

/// A task packed to be handed over.
#[derive(Clone, Debug, PartialEq, Eq)]
pub struct TaskBundle {
    pub version: u32,
    pub source_task_id: TaskId,
    pub source_status: TaskStatus,
    pub files: Vec<BundleFile>,
    pub artifact_hashes: Vec<ArtifactHash>,
    pub trace_jsonl: Vec<u8>,
}

/// A file in a bundle.
#[derive(Clone, Debug, PartialEq, Eq)]
pub struct BundleFile {
    pub relative_path: String,
    pub bytes: Vec<u8>,
}

/// Why a bundle could not be made or taken.
#[derive(Clone, Debug, PartialEq, Eq)]
pub enum BundleError {
    UnsupportedVersion(u32),
    UnsafePath(String),
    MissingMandatoryArtifact(String),
    Io { path: String, source: String },
    Serialize(String),
    TraceSerialize(String),
}

impl BundleError {
    /// The message shown for this error.
    pub open spec fn text(&self) -> Seq<char> {
        match self {
            BundleError::UnsupportedVersion(v) => "unsupported bundle version: "@
                + crate::text::decimal(*v as nat),
            BundleError::UnsafePath(p) => "unsafe bundle path: "@ + p@,
            BundleError::MissingMandatoryArtifact(p) => "mandatory artifact missing or empty: "@
                + p@,
            BundleError::Io { path, source } => "io at "@ + path@ + ": "@ + source@,
            BundleError::Serialize(m) => "bundle serialization: "@ + m@,
            BundleError::TraceSerialize(m) => "trace serialization: "@ + m@,
        }
    }

    /// The message shown for this error.
    pub fn message(&self) -> (r: String)
        ensures
            r@ == self.text(),
    {
        match self {
            BundleError::UnsupportedVersion(v) => {
                let t = decimal_text(*v as u64);
                cat("unsupported bundle version: ", t.as_str())
            },
            BundleError::UnsafePath(p) => cat("unsafe bundle path: ", p.as_str()),
            BundleError::MissingMandatoryArtifact(p) => cat(
                "mandatory artifact missing or empty: ",
                p.as_str(),
            ),
            BundleError::Io { path, source } => {
                let mut r = cat3("io at ", path.as_str(), ": ");
                r.append(source.as_str());
                r
            },
            BundleError::Serialize(m) => cat("bundle serialization: ", m.as_str()),
            BundleError::TraceSerialize(m) => cat("trace serialization: ", m.as_str()),
        }
    }
}

/// The contents of a `BundleFile`.
pub struct PackedModel {
    pub path: Seq<char>,
    pub bytes: Seq<u8>,
}

impl View for BundleFile {
    type V = PackedModel;

    open spec fn view(&self) -> PackedModel {
        PackedModel { path: self.relative_path@, bytes: self.bytes@ }
    }
}

pub open spec fn packed_models(s: Seq<BundleFile>) -> Seq<PackedModel> {
    s.map_values(|f: BundleFile| f@)
}

impl Ordered for PackedModel {
    open spec fn before(self, other: Self) -> bool {
        crate::host_path::path_lt(self.path, other.path)
    }
}

impl Ordered for BundleFile {
    open spec fn before(self, other: Self) -> bool {
        self@.before(other@)
    }
}

impl Ranked for BundleFile {
    fn comes_before(&self, other: &Self) -> (r: bool) {
        path_before(self.relative_path.as_str(), other.relative_path.as_str())
    }
}

impl Ordered for HashModel {
    open spec fn before(self, other: Self) -> bool {
        crate::host_path::path_lt(self.path, other.path)
    }
}

impl Ordered for ArtifactHash {
    open spec fn before(self, other: Self) -> bool {
        self@.before(other@)
    }
}

impl Ranked for ArtifactHash {
    fn comes_before(&self, other: &Self) -> (r: bool) {
        path_before(self.path.as_str(), other.path.as_str())
    }
}

/// What to do with an entry that lies at `path` while a bundle is packed.
pub open spec fn packed_visit(
    v: Result<Visit, BundleError>,
    root: Seq<char>,
    path: Seq<char>,
    class: EntryClass,
) -> bool {
    match class {
        EntryClass::Dir => v matches Ok(Visit::Descend(p)) && p@ == path,
        EntryClass::File => if crate::host_path::name_of(path) == Some("trace.jsonl"@) {
            v matches Ok(Visit::Skip)
        } else {
            match crate::snapshot::relative_to(root, path) {
                Some(rel) => v matches Ok(Visit::Take(p)) && p@ == rel,
                None => v matches Err(BundleError::UnsafePath(p)) && p@ == path,
            }
        },
        _ => v matches Ok(Visit::Skip),
    }
}

/// What to do with an entry while a bundle is packed. Directories are walked,
/// files are taken under their path below the root; links and traces are left
/// out.
pub fn visit_for_bundle(root: &str, path: &str, class: EntryClass) -> (r: Result<
    Visit,
    BundleError,
>)
    ensures
        packed_visit(r, root@, path@, class),
{
    match class {
        EntryClass::Dir => Ok(Visit::Descend(owned(path))),
        EntryClass::File => {
            if let Some(name) = file_name(path) {
                if same_text(name.as_str(), "trace.jsonl") {
                    return Ok(Visit::Skip);
                }
            }
            match strip_prefix(path, root) {
                Some(rel) => Ok(Visit::Take(rel)),
                None => Err(BundleError::UnsafePath(owned(path))),
            }
        },
        _ => Ok(Visit::Skip),
    }
}

/// Packs a task: its files in the order of their paths, its artifacts and its
/// trace.
pub fn export_bundle(
    task: &Task,
    files: Vec<BundleFile>,
    artifact_hashes: Vec<ArtifactHash>,
    trace_jsonl: Vec<u8>,
) -> (r: TaskBundle)
    ensures
        r.version == BUNDLE_VERSION,
        r.source_task_id == task.id,
        r.source_status == task.status,
        packed_models(r.files@) == crate::order::sorted(packed_models(files@)),
        r.artifact_hashes == artifact_hashes,
        r.trace_jsonl == trace_jsonl,
{
    proof {
        crate::order::lemma_sorted_map(files@, |f: BundleFile| f@);
    }
    TaskBundle {
        version: BUNDLE_VERSION,
        source_task_id: task.id,
        source_status: task.status,
        files: sort_stable(files),
        artifact_hashes,
        trace_jsonl,
    }
}

/// What reading an artifact gave.
#[derive(Debug)]
pub enum ArtifactRead {
    Missing,
    Failed(String),
    Bytes(Vec<u8>),
}

/// Why an artifact has no hash: it is missing or empty, or cannot be read.
pub enum ArtifactFault {
    Missing(Seq<char>),
    Unread { path: Seq<char>, source: Seq<char> },
}

impl ArtifactFault {
    /// The message shown for this fault.
    pub open spec fn text(self) -> Seq<char> {
        match self {
            ArtifactFault::Missing(path) => "mandatory artifact missing or empty: "@ + path,
            ArtifactFault::Unread { path, source } => "io at "@ + path + ": "@ + source,
        }
    }
}

/// The error is the one that stands for the fault.
pub open spec fn tells_fault(e: BundleError, fault: ArtifactFault) -> bool {
    match fault {
        ArtifactFault::Missing(at) => e matches BundleError::MissingMandatoryArtifact(p) && p@ == at,
        ArtifactFault::Unread { path: at, source: why } => e matches BundleError::Io {
            path,
            source,
        } && path@ == at && source@ == why,
    }
}

/// The hash of one artifact, or why there is none.
pub open spec fn artifact_hash(path: Seq<char>, read: ArtifactRead) -> Result<
    HashModel,
    ArtifactFault,
> {
    match read {
        ArtifactRead::Missing => Err(ArtifactFault::Missing(path)),
        ArtifactRead::Failed(m) => Err(ArtifactFault::Unread { path, source: m@ }),
        ArtifactRead::Bytes(b) => if b@.len() == 0 {
            Err(ArtifactFault::Missing(path))
        } else {
            Ok(
                HashModel {
                    path,
                    bytes: b@.len() as u64,
                    fnv64: crate::snapshot::fnv64_of(b@),
                },
            )
        },
    }
}

/// The hashes of the first `n` artifacts, or the first fault among them.
pub open spec fn artifact_hashes(
    workdir: Seq<char>,
    artifacts: Seq<Seq<char>>,
    reads: Seq<ArtifactRead>,
    n: int,
) -> Result<Seq<HashModel>, ArtifactFault>
    decreases n,
{
    if n <= 0 {
        Ok(Seq::empty())
    } else {
        match artifact_hashes(workdir, artifacts, reads, n - 1) {
            Err(m) => Err(m),
            Ok(before) => match artifact_hash(
                crate::host_path::task_path(workdir, artifacts[n - 1]),
                reads[n - 1],
            ) {
                Err(m) => Err(m),
                Ok(h) => Ok(before.push(h)),
            },
        }
    }
}

/// The hashes of all mandatory artifacts of a task, in the order of their
/// paths, or the first fault among them.
pub open spec fn hashes_of(task: crate::task::TaskModel, reads: Seq<ArtifactRead>) -> Result<
    Seq<HashModel>,
    ArtifactFault,
> {
    match artifact_hashes(
        task.workdir,
        task.manifest.mandatory_artifacts,
        reads,
        reads.len() as int,
    ) {
        Ok(hashes) => Ok(crate::order::sorted(hashes)),
        Err(fault) => Err(fault),
    }
}

proof fn lemma_hash_failure_persists(
    workdir: Seq<char>,
    artifacts: Seq<Seq<char>>,
    reads: Seq<ArtifactRead>,
    n: int,
    all: int,
)
    requires
        0 <= n <= all,
        artifact_hashes(workdir, artifacts, reads, n) is Err,
    ensures
        artifact_hashes(workdir, artifacts, reads, all) == artifact_hashes(
            workdir,
            artifacts,
            reads,
            n,
        ),
    decreases all - n,
{
    if n < all {
        lemma_hash_failure_persists(workdir, artifacts, reads, n, all - 1);
    }
}

/// Hashes the mandatory artifacts of a task, in the order of their paths;
/// `reads` holds what reading each of them gave.
pub fn compute_mandatory_artifact_hashes(task: &Task, reads: &Vec<ArtifactRead>) -> (r: Result<
    Vec<ArtifactHash>,
    BundleError,
>)
    requires
        reads@.len() == task.manifest.mandatory_artifacts@.len(),
    ensures
        match hashes_of(task@, reads@) {
            Ok(hashes) => r matches Ok(h) && crate::guard::hash_models(h@) == hashes,
            Err(fault) => r matches Err(e) && tells_fault(e, fault),
        },
{
    let ghost all = task@.manifest.mandatory_artifacts;
    let ghost n = reads@.len() as int;
    let mut hashes: Vec<ArtifactHash> = Vec::new();
    let mut i: usize = 0;
    proof {
        assert(crate::guard::hash_models(hashes@) =~= Seq::<HashModel>::empty());
    }
    while i < reads.len()
        invariant
            i <= reads.len(),
            n == reads@.len(),
            reads@.len() == task.manifest.mandatory_artifacts@.len(),
            all == task@.manifest.mandatory_artifacts,
            artifact_hashes(task@.workdir, all, reads@, i as int) == Ok::<
                Seq<HashModel>,
                ArtifactFault,
            >(crate::guard::hash_models(hashes@)),
        decreases reads.len() - i,
    {
        let ghost before = crate::guard::hash_models(hashes@);
        let path = resolve_task_path(
            task.workdir.as_str(),
            task.manifest.mandatory_artifacts[i].as_str(),
        );
        proof {
            assert(all[i as int] == task.manifest.mandatory_artifacts@[i as int]@);
            if artifact_hashes(task@.workdir, all, reads@, i + 1) is Err {
                lemma_hash_failure_persists(task@.workdir, all, reads@, i + 1, n);
            }
        }
        match &reads[i] {
            ArtifactRead::Missing => {
                return Err(BundleError::MissingMandatoryArtifact(path));
            },
            ArtifactRead::Failed(m) => {
                return Err(BundleError::Io { path, source: owned(m.as_str()) });
            },
            ArtifactRead::Bytes(bytes) => {
                if bytes.len() == 0 {
                    return Err(BundleError::MissingMandatoryArtifact(path));
                }
                let item = ArtifactHash {
                    path,
                    bytes: bytes.len() as u64,
                    fnv64: fnv64(bytes.as_slice()),
                };
                let ghost added = item@;
                hashes.push(item);
                proof {
                    assert(crate::guard::hash_models(hashes@) =~= before.push(added));
                }
            },
        }
        i = i + 1;
    }
    proof {
        crate::order::lemma_sorted_map(hashes@, |h: ArtifactHash| h@);
    }
    Ok(sort_stable(hashes))
}

/// The components of a path without `.`.
pub open spec fn without_dots(parts: Seq<Seq<char>>) -> Seq<Seq<char>>
    decreases parts.len(),
{
    if parts.len() == 0 {
        Seq::empty()
    } else if parts.last() == "."@ {
        without_dots(parts.drop_last())
    } else {
        without_dots(parts.drop_last()).push(parts.last())
    }
}

/// The path below the root that a path of a bundle stands for; none where it
/// is absolute, climbs, or is empty.
pub open spec fn bundle_path(p: Seq<char>) -> Option<Seq<char>> {
    let parts = crate::host_path::path_parts(p);
    if parts.contains(".."@) || parts.contains("/"@) || without_dots(parts).len() == 0 {
        None
    } else {
        Some(crate::text::joined_with(without_dots(parts), "/"@))
    }
}

/// The path below the root that a path of a bundle stands for. A path that is
/// absolute or climbs is refused, and so is an empty one.
pub fn safe_relative_path(path: &str) -> (r: Result<String, BundleError>)
    ensures
        match r {
            Ok(p) => bundle_path(path@) == Some(p@),
            Err(e) => bundle_path(path@) is None && (e matches BundleError::UnsafePath(p) && p@
                == path@),
        },
{
    let parts = components(path);
    let ghost all = crate::host_path::path_parts(path@);
    let mut out: Vec<String> = Vec::new();
    let mut i: usize = 0;
    proof {
        assert(crate::text::texts(out@) =~= Seq::<Seq<char>>::empty());
    }
    while i < parts.len()
        invariant
            i <= parts.len(),
            all == crate::text::texts(parts@),
            all == crate::host_path::path_parts(path@),
            crate::text::texts(out@) == without_dots(all.take(i as int)),
            forall|j: int| 0 <= j < i ==> #[trigger] all[j] != ".."@ && all[j] != "/"@,
        decreases parts.len() - i,
    {
        let part = parts[i].as_str();
        let ghost before = crate::text::texts(out@);
        proof {
            assert(all[i as int] == part@);
            assert(all.take(i + 1).drop_last() =~= all.take(i as int));
            assert(all.take(i + 1).last() == part@);
        }
        if same_text(part, "..") || same_text(part, "/") {
            proof {
                assert(all.contains(part@));
            }
            return Err(BundleError::UnsafePath(owned(path)));
        }
        if !same_text(part, ".") {
            out.push(owned(part));
            proof {
                assert(crate::text::texts(out@) =~= before.push(part@));
            }
        }
        i = i + 1;
    }
    proof {
        assert(all.take(all.len() as int) =~= all);
    }
    if out.len() == 0 {
        return Err(BundleError::UnsafePath(owned(path)));
    }
    Ok(join_texts(&out, "/"))
}

/// What taking a bundle comes to: the files to write, in order, and the error
/// that ends it where one of its paths is refused.
#[derive(Debug)]
pub struct ImportPlan {
    pub workdir: String,
    pub files: Vec<BundleFile>,
    pub refused: Option<BundleError>,
}

/// The files up to the first one whose path is refused, each at its place
/// below `workdir`.
pub open spec fn placed_files(workdir: Seq<char>, files: Seq<PackedModel>) -> Seq<PackedModel>
    decreases files.len(),
{
    if files.len() == 0 {
        Seq::empty()
    } else {
        match bundle_path(files[0].path) {
            None => Seq::empty(),
            Some(rel) => seq![
                PackedModel {
                    path: crate::host_path::joined(workdir, rel),
                    bytes: files[0].bytes,
                },
            ] + placed_files(workdir, files.drop_first()),
        }
    }
}

/// The first path among the files that is refused.
pub open spec fn first_refused(files: Seq<PackedModel>) -> Option<Seq<char>>
    decreases files.len(),
{
    if files.len() == 0 {
        None
    } else if bundle_path(files[0].path) is None {
        Some(files[0].path)
    } else {
        first_refused(files.drop_first())
    }
}

/// Plans how a bundle is taken into `new_workdir`. A bundle of another version
/// is refused as a whole.
pub fn import_bundle(bundle: TaskBundle, new_workdir: &str) -> (r: Result<ImportPlan, BundleError>)
    ensures
        match r {
            Ok(plan) => {
                let workdir = crate::host_path::normalized(new_workdir@);
                &&& bundle.version == BUNDLE_VERSION
                &&& plan.workdir@ == workdir
                &&& packed_models(plan.files@) == placed_files(
                    workdir,
                    packed_models(bundle.files@),
                )
                &&& match first_refused(packed_models(bundle.files@)) {
                    Some(p) => plan.refused matches Some(BundleError::UnsafePath(q)) && q@ == p,
                    None => plan.refused is None,
                }
            },
            Err(e) => bundle.version != BUNDLE_VERSION && e == BundleError::UnsupportedVersion(
                bundle.version,
            ),
        },
{
    if bundle.version != BUNDLE_VERSION {
        return Err(BundleError::UnsupportedVersion(bundle.version));
    }
    let workdir = normalize_path(new_workdir);
    let mut rest = bundle.files;
    let ghost all = packed_models(rest@);
    let ghost placed = placed_files(workdir@, all);
    let mut files: Vec<BundleFile> = Vec::new();
    let mut refused: Option<BundleError> = None;
    proof {
        assert(packed_models(files@) + placed_files(workdir@, packed_models(rest@)) =~= placed);
    }
    while rest.len() > 0 && refused.is_none()
        invariant
            placed == placed_files(workdir@, all),
            match refused {
                None => packed_models(files@) + placed_files(workdir@, packed_models(rest@))
                    == placed && first_refused(packed_models(rest@)) == first_refused(all),
                Some(e) => packed_models(files@) == placed && (e matches BundleError::UnsafePath(q)
                    && first_refused(all) == Some(q@)),
            },
        decreases rest.len(),
    {
        let ghost before = packed_models(files@);
        let ghost left = packed_models(rest@);
        let file = rest.remove(0);
        proof {
            assert(left[0] == file@);
            assert(packed_models(rest@) =~= left.drop_first());
        }
        match safe_relative_path(file.relative_path.as_str()) {
            Ok(rel) => {
                let item = BundleFile {
                    relative_path: join_path(workdir.as_str(), rel.as_str()),
                    bytes: file.bytes,
                };
                let ghost head = item@;
                files.push(item);
                proof {
                    assert(packed_models(files@) =~= before.push(head));
                    assert(before + (seq![head] + placed_files(
                        workdir@,
                        packed_models(rest@),
                    )) =~= before.push(head) + placed_files(workdir@, packed_models(rest@)));
                }
            },
            Err(e) => {
                proof {
                    assert(before + Seq::<PackedModel>::empty() =~= before);
                }
                refused = Some(e);
            },
        }
    }
    proof {
        assert(packed_models(files@) =~= placed) by {
            if refused is None {
                assert(packed_models(rest@) =~= Seq::<PackedModel>::empty());
                assert(packed_models(files@) + Seq::<PackedModel>::empty() =~= packed_models(
                    files@,
                ));
            }
        }
    }
    Ok(ImportPlan { workdir, files, refused })
}

/// The trace of the new task: the old one, closed by a line feed where it is
/// not, and the line that records the handover.
pub open spec fn handed_over(trace: Seq<u8>, event: Seq<u8>) -> Seq<u8> {
    (if trace.len() > 0 && trace.last() != 10u8 {
        trace.push(10u8)
    } else {
        trace
    }) + event.push(10u8)
}

/// The trace of the new task, from the old one and the encoded event that
/// records the handover.
pub fn write_trace(trace_jsonl: Vec<u8>, event: Vec<u8>) -> (r: Vec<u8>)
    ensures
        r@ == handed_over(trace_jsonl@, event@),
{
    let mut trace = trace_jsonl;
    if trace.len() > 0 && trace[trace.len() - 1] != 10u8 {
        trace.push(10u8);
    }
    let mut line = event;
    line.push(10u8);
    trace.append(&mut line);
    trace
}

/// The task that takes a bundle over: a new one, at the start, with limits of
/// its own.
pub fn task_from_bundle(
    manifest: crate::manifest::Manifest,
    plan: &ImportPlan,
    tasks: &mut crate::task_fs::TaskTable,
) -> (r: Task)
    ensures
        crate::ids::is_random_uuid(r.id.0),
        r@ == crate::task::fresh_task(r.id, manifest@, plan.workdir@),
        final(tasks)@ == crate::task_fs::registered(old(tasks)@, r.id, plan.workdir@),
{
    let task = Task::new(manifest, owned(plan.workdir.as_str()));
    crate::task_fs::register_task(tasks, task.id, owned(plan.workdir.as_str()));
    task
}

/// The components that are kept are clean.
proof fn lemma_without_dots(parts: Seq<Seq<char>>)
    ensures
        forall|i: int|
            0 <= i < without_dots(parts).len() ==> parts.contains(
                #[trigger] without_dots(parts)[i],
            ) && without_dots(parts)[i] != "."@,
    decreases parts.len(),
{
    if parts.len() > 0 {
        lemma_without_dots(parts.drop_last());
        let before = without_dots(parts.drop_last());
        let out = without_dots(parts);
        assert forall|i: int| 0 <= i < out.len() implies parts.contains(#[trigger] out[i])
            && out[i] != "."@ by {
            if i < before.len() {
                assert(out[i] == before[i]);
                let k = choose|k: int|
                    0 <= k < parts.drop_last().len() && parts.drop_last()[k] == before[i];
                assert(parts[k] == out[i]);
            } else {
                assert(parts[parts.len() - 1] == out[i]);
            }
        }
    }
}

/// Every file of a bundle that is written lies below the new working
/// directory.
pub proof fn lemma_import_stays_below(workdir: Seq<char>, p: Seq<char>)
    ensures
        bundle_path(p) matches Some(rel) ==> crate::host_path::is_under(
            crate::host_path::normalized(crate::host_path::joined(workdir, rel)),
            crate::host_path::normalized(workdir),
        ),
{
    if let Some(rel) = bundle_path(p) {
        reveal_strlit("/");
        let parts = crate::host_path::path_parts(p);
        let kept = without_dots(parts);
        lemma_without_dots(parts);
        crate::host_path::lemma_parts_shape(p);
        assert forall|i: int| 0 <= i < kept.len() implies crate::vfs_path::valid_segment(
            #[trigger] kept[i],
        ) by {
            let k = choose|k: int| 0 <= k < parts.len() && parts[k] == kept[i];
            assert(parts[k].len() > 0);
        }
        assert(crate::vfs_path::valid_segment(kept[0]));
        assert(kept[0] != "/"@) by {
            assert("/"@[0] == '/');
            assert(kept[0] == "/"@ ==> kept[0].contains('/'));
        }
        crate::host_path::lemma_parts_of_rendered(kept);
        assert(crate::host_path::path_parts(rel) == kept);
        crate::host_path::lemma_parts_shape(rel);
        assert(!crate::host_path::is_rooted(rel));
        crate::host_path::lemma_join_stays_below(workdir, rel);
    }
}

/// A path as packing makes it: names of entries with slashes between.
pub open spec fn is_packed_path(p: Seq<char>) -> bool {
    let parts = crate::host_path::path_parts(p);
    &&& parts.len() > 0
    &&& crate::vfs_path::canonical(parts)
    &&& p == crate::text::joined_with(parts, "/"@)
}

/// A file that stands below the root by names of entries alone is packed
/// under such a path.
pub proof fn lemma_packing_makes_packed_paths(root: Seq<char>, path: Seq<char>)
    requires
        crate::host_path::is_under(path, root),
        crate::host_path::path_parts(root).len() < crate::host_path::path_parts(path).len(),
        crate::vfs_path::canonical(
            crate::host_path::path_parts(path).skip(
                crate::host_path::path_parts(root).len() as int,
            ),
        ),
    ensures
        crate::snapshot::relative_to(root, path) matches Some(rel) && is_packed_path(rel),
{
    reveal_strlit("/");
    let below = crate::host_path::path_parts(path).skip(
        crate::host_path::path_parts(root).len() as int,
    );
    assert("/"@[0] == '/');
    assert(crate::vfs_path::valid_segment(below[0]));
    assert(below[0] == "/"@ ==> below[0].contains('/'));
    crate::host_path::lemma_parts_of_rendered(below);
}

proof fn lemma_packed_path_is_kept(p: Seq<char>)
    requires
        is_packed_path(p),
    ensures
        bundle_path(p) == Some(p),
{
    reveal_strlit("/");
    assert("/"@[0] == '/');
    let parts = crate::host_path::path_parts(p);
    lemma_no_dots(parts);
    if parts.contains(".."@) {
        let k = choose|k: int| 0 <= k < parts.len() && parts[k] == ".."@;
        assert(crate::vfs_path::valid_segment(parts[k]));
    }
    if parts.contains("/"@) {
        let k = choose|k: int| 0 <= k < parts.len() && parts[k] == "/"@;
        assert(crate::vfs_path::valid_segment(parts[k]));
        assert(parts[k].contains('/'));
    }
}

proof fn lemma_no_dots(parts: Seq<Seq<char>>)
    requires
        crate::vfs_path::canonical(parts),
    ensures
        without_dots(parts) == parts,
    decreases parts.len(),
{
    if parts.len() > 0 {
        assert forall|i: int| 0 <= i < parts.len() - 1 implies crate::vfs_path::valid_segment(
            #[trigger] parts.drop_last()[i],
        ) by {
            assert(crate::vfs_path::valid_segment(parts[i]));
        }
        lemma_no_dots(parts.drop_last());
        assert(crate::vfs_path::valid_segment(parts[parts.len() - 1]));
        assert(parts =~= parts.drop_last().push(parts.last()));
    } else {
        assert(without_dots(parts) =~= parts);
    }
}

/// Files as they stand once they are taken into a working directory.
pub open spec fn taken_into(workdir: Seq<char>, files: Seq<PackedModel>) -> Seq<PackedModel> {
    files.map_values(
        |f: PackedModel|
            PackedModel { path: crate::host_path::joined(workdir, f.path), bytes: f.bytes },
    )
}

proof fn lemma_places_all(workdir: Seq<char>, files: Seq<PackedModel>)
    requires
        forall|i: int| 0 <= i < files.len() ==> is_packed_path((#[trigger] files[i]).path),
    ensures
        placed_files(workdir, files) == taken_into(workdir, files),
        first_refused(files) is None,
    decreases files.len(),
{
    if files.len() > 0 {
        let rest = files.drop_first();
        assert forall|i: int| 0 <= i < rest.len() implies is_packed_path(
            (#[trigger] rest[i]).path,
        ) by {
            assert(rest[i] == files[i + 1]);
        }
        lemma_places_all(workdir, rest);
        assert(is_packed_path(files[0].path));
        lemma_packed_path_is_kept(files[0].path);
        let head = seq![
            PackedModel {
                path: crate::host_path::joined(workdir, files[0].path),
                bytes: files[0].bytes,
            },
        ];
        assert(head + taken_into(workdir, rest) =~= taken_into(workdir, files));
    } else {
        assert(placed_files(workdir, files) =~= taken_into(workdir, files));
    }
}

/// What is packed comes out again: taking an exported bundle writes every
/// file that went in, with its bytes, at its path below the new working
/// directory, and refuses none.
pub proof fn lemma_bundle_round_trip(workdir: Seq<char>, files: Seq<PackedModel>)
    requires
        forall|i: int| 0 <= i < files.len() ==> is_packed_path((#[trigger] files[i]).path),
    ensures
        ({
            let packed = crate::order::sorted(files);
            &&& first_refused(packed) is None
            &&& placed_files(workdir, packed) == taken_into(workdir, packed)
            &&& packed.to_multiset() == files.to_multiset()
        }),
{
    let packed = crate::order::sorted(files);
    crate::order::lemma_sorted_same_elements(files);
    assert forall|i: int| 0 <= i < packed.len() implies is_packed_path(
        (#[trigger] packed[i]).path,
    ) by {
        assert(packed.contains(packed[i]));
        crate::order::lemma_sorted_contains(files, packed[i]);
        let k = choose|k: int| 0 <= k < files.len() && files[k] == packed[i];
        assert(is_packed_path(files[k].path));
    }
    lemma_places_all(workdir, packed);
}

/// A handed-over trace ends with the line that records the handover, and
/// holds all of the old one before it.
pub proof fn lemma_handover_keeps_trace(trace: Seq<u8>, event: Seq<u8>)
    ensures
        trace.is_prefix_of(handed_over(trace, event)),
        event.push(10u8).is_suffix_of(handed_over(trace, event)),
{
    let out = handed_over(trace, event);
    assert(trace =~= out.subrange(0, trace.len() as int));
    assert(event.push(10u8) =~= out.subrange(
        out.len() - event.push(10u8).len(),
        out.len() as int,
    ));
}

} // verus!
