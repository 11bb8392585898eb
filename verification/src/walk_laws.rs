//! What the walks over a working directory gather: everything that belongs
//! into a checkpoint or a bundle, at any depth, and nothing else.

use vstd::prelude::*;

use crate::bundle::{visit_for_bundle, BundleError, PackedModel};
use crate::context::{classify_path, CollectStep};
use crate::snapshot::{
    visit_for_backup, visit_for_rollback, CurrentModel, EntryClass, FileModel, FileState, Visit,
};
use crate::task_fs::TransactionError;

verus! {

/// `path` leads from `root` down by these names of entries.
pub open spec fn leads_down(root: Seq<char>, path: Seq<char>, names: Seq<Seq<char>>) -> bool {
    &&& names.len() > 0
    &&& crate::vfs_path::canonical(names)
    &&& crate::host_path::path_parts(path) == crate::host_path::path_parts(root) + names
}

/// The text of a path that leads down by these names.
pub open spec fn by_names(names: Seq<Seq<char>>) -> Seq<char> {
    crate::text::joined_with(names, "/"@)
}

/// The path below the root of an entry that is reached by names is those names
/// with slashes between, and tells them.
proof fn lemma_below_by_names(root: Seq<char>, path: Seq<char>, names: Seq<Seq<char>>)
    requires
        leads_down(root, path, names),
    ensures
        crate::host_path::is_under(path, root),
        crate::host_path::path_parts(path).skip(crate::host_path::path_parts(root).len() as int)
            == names,
        crate::snapshot::relative_to(root, path) == Some(by_names(names)),
        crate::host_path::path_parts(by_names(names)) == names,
        crate::host_path::name_of(path) == Some(names.last()),
        crate::snapshot::is_reserved(by_names(names)) == (names[0] == ".v9r"@),
{
    reveal_strlit("/");
    reveal_strlit(".");
    reveal_strlit("..");
    let parts = crate::host_path::path_parts(path);
    let top = crate::host_path::path_parts(root);
    assert(top =~= parts.subrange(0, top.len() as int));
    assert(parts.skip(top.len() as int) =~= names);
    assert(crate::vfs_path::valid_segment(names[0]));
    assert("/"@[0] == '/');
    assert(names[0] == "/"@ ==> names[0].contains('/'));
    crate::host_path::lemma_parts_of_rendered(names);
    assert(crate::vfs_path::valid_segment(names[names.len() - 1]));
    assert(names.last() == "/"@ ==> names.last().contains('/'));
    assert(parts.last() == names.last());
}

/// A checkpoint leaves nothing out: each directory below the root is walked
/// and each regular file taken, at any depth, under its path below the root;
/// only what lies in the runtime's own directory is passed over, and a
/// symbolic link stops the checkpoint.
pub proof fn lemma_checkpoints_visit_everything(
    root: &str,
    path: &str,
    names: Seq<Seq<char>>,
    class: EntryClass,
    r: Result<Visit, TransactionError>,
)
    requires
        leads_down(root@, path@, names),
        call_ensures(visit_for_backup, (root, path, class), r),
    ensures
        match class {
            EntryClass::Symlink => r matches Err(TransactionError::SymlinkUnsupported(p)) && p@
                == path@,
            EntryClass::Dir => if names[0] == ".v9r"@ {
                r matches Ok(Visit::Skip)
            } else {
                r matches Ok(Visit::Descend(rel)) && rel@ == by_names(names)
            },
            EntryClass::File => if names[0] == ".v9r"@ {
                r matches Ok(Visit::Skip)
            } else {
                r matches Ok(Visit::Take(rel)) && rel@ == by_names(names)
            },
            EntryClass::Other => r matches Ok(Visit::Skip),
        },
{
    lemma_below_by_names(root@, path@, names);
}

/// The listing for a rollback leaves nothing out either; symbolic links are
/// passed over.
pub proof fn lemma_rollbacks_visit_everything(
    root: &str,
    path: &str,
    names: Seq<Seq<char>>,
    class: EntryClass,
    r: Result<Visit, TransactionError>,
)
    requires
        leads_down(root@, path@, names),
        call_ensures(visit_for_rollback, (root, path, class), r),
    ensures
        match class {
            EntryClass::Dir => if names[0] == ".v9r"@ {
                r matches Ok(Visit::Skip)
            } else {
                r matches Ok(Visit::Descend(rel)) && rel@ == by_names(names)
            },
            EntryClass::File => if names[0] == ".v9r"@ {
                r matches Ok(Visit::Skip)
            } else {
                r matches Ok(Visit::Take(rel)) && rel@ == by_names(names)
            },
            _ => r matches Ok(Visit::Skip),
        },
{
    lemma_below_by_names(root@, path@, names);
}

/// An entry outside the root is no entry of a checkpoint, a rollback or a
/// bundle.
pub proof fn lemma_walks_stay_inside(
    root: &str,
    path: &str,
    class: EntryClass,
    a: Result<Visit, TransactionError>,
    b: Result<Visit, TransactionError>,
    c: Result<Visit, BundleError>,
)
    requires
        !crate::host_path::path_parts(root@).is_prefix_of(crate::host_path::path_parts(path@)),
        call_ensures(visit_for_backup, (root, path, class), a),
        call_ensures(visit_for_rollback, (root, path, class), b),
        call_ensures(visit_for_bundle, (root, path, class), c),
    ensures
        a is Err,
        b is Err,
        !(c matches Ok(Visit::Take(_))),
{
}

/// A bundle leaves nothing out: each directory below the root is walked, at
/// any depth, and each regular file taken under its path below the root, but
/// for traces; links and special files are passed over.
pub proof fn lemma_bundles_visit_everything(
    root: &str,
    path: &str,
    names: Seq<Seq<char>>,
    class: EntryClass,
    r: Result<Visit, BundleError>,
)
    requires
        leads_down(root@, path@, names),
        call_ensures(visit_for_bundle, (root, path, class), r),
    ensures
        match class {
            EntryClass::Dir => r matches Ok(Visit::Descend(at)) && at@ == path@,
            EntryClass::File => if names.last() == "trace.jsonl"@ {
                r matches Ok(Visit::Skip)
            } else {
                r matches Ok(Visit::Take(rel)) && rel@ == by_names(names)
            },
            _ => r matches Ok(Visit::Skip),
        },
{
    lemma_below_by_names(root@, path@, names);
}

/// The files that a model is shown are all that it may read: below a path that
/// it may read each directory is walked and each regular file read, but for
/// traces.
pub proof fn lemma_contexts_visit_everything(
    root: Seq<char>,
    path: &str,
    names: Seq<Seq<char>>,
    class: EntryClass,
    r: CollectStep,
)
    requires
        leads_down(root, path@, names),
        call_ensures(classify_path, (path, class), r),
    ensures
        match class {
            EntryClass::Dir => r is ReadDir,
            EntryClass::File => if names.last() == "trace.jsonl"@ {
                r is Skip
            } else {
                r is ReadFile
            },
            _ => r is Skip,
        },
{
    lemma_below_by_names(root, path@, names);
}

/// What stands at a path of the host.
pub ghost enum Entry {
    File(Seq<u8>),
    Dir,
    Symlink,
    Other,
}

/// The entries below a directory, by the names that lead to them.
pub type Tree = Map<Seq<Seq<char>>, Entry>;

pub open spec fn class_of(e: Entry) -> EntryClass {
    match e {
        Entry::File(_) => EntryClass::File,
        Entry::Dir => EntryClass::Dir,
        Entry::Symlink => EntryClass::Symlink,
        Entry::Other => EntryClass::Other,
    }
}

/// Every entry is reached by names, through directories, and its size can be
/// told.
pub open spec fn is_tree(tree: Tree) -> bool {
    forall|key: Seq<Seq<char>>| #[trigger]
        tree.dom().contains(key) ==> {
            &&& key.len() > 0
            &&& crate::vfs_path::canonical(key)
            &&& key.len() > 1 ==> tree.dom().contains(key.drop_last()) && tree[key.drop_last()]
                is Dir
            &&& tree[key] matches Entry::File(b) ==> b.len() <= u64::MAX
        }
}

/// Each directory on the way to an entry was walked.
pub open spec fn walked(found: spec_fn(Seq<Seq<char>>) -> Visit, key: Seq<Seq<char>>) -> bool {
    forall|n: int| 0 < n < key.len() ==> found(#[trigger] key.take(n)) is Descend
}

/// The walk came to `key` and took it, as a file at `rel`.
pub open spec fn taken_at(
    found: spec_fn(Seq<Seq<char>>) -> Visit,
    key: Seq<Seq<char>>,
    rel: Seq<char>,
) -> bool {
    walked(found, key) && (found(key) matches Visit::Take(p) && p@ == rel)
}

/// The walk came to `key` and noted it, as a directory at `rel`.
pub open spec fn noted_at(
    found: spec_fn(Seq<Seq<char>>) -> Visit,
    key: Seq<Seq<char>>,
    rel: Seq<char>,
) -> bool {
    walked(found, key) && (found(key) matches Visit::Descend(p) && p@ == rel)
}

/// The regular files of a tree outside the runtime's own directory.
pub open spec fn kept_files(tree: Tree) -> FileState {
    Map::new(
        |key: Seq<Seq<char>>|
            tree.dom().contains(key) && key[0] != ".v9r"@ && tree[key] is File,
        |key: Seq<Seq<char>>| tree[key]->File_0,
    )
}

/// The entry at `key` is a directory outside the runtime's own one.
pub open spec fn is_kept_dir(tree: Tree, key: Seq<Seq<char>>) -> bool {
    tree.dom().contains(key) && key[0] != ".v9r"@ && tree[key] is Dir
}

/// `files` holds an entry for each file that the walk took, with its size and
/// its hash, and no others.
pub open spec fn gathers_files(
    files: Seq<FileModel>,
    tree: Tree,
    found: spec_fn(Seq<Seq<char>>) -> Visit,
) -> bool {
    &&& forall|i: int|
        0 <= i < files.len() ==> exists|key: Seq<Seq<char>>| #[trigger]
            tree.dom().contains(key) && taken_at(found, key, (#[trigger] files[i]).path)
                && tree[key] is File && files[i] == crate::snapshot::fingerprint(
                files[i].path,
                tree[key]->File_0,
            )
    &&& forall|key: Seq<Seq<char>>|
        tree.dom().contains(key) && walked(found, key) && (#[trigger] found(key)) is Take
            ==> exists|i: int|
            0 <= i < files.len() && (#[trigger] files[i]).path == found(key)->Take_0@
}

/// `current` lists each file that the walk took, with its contents, and no
/// others.
pub open spec fn gathers_contents(
    current: Seq<CurrentModel>,
    tree: Tree,
    found: spec_fn(Seq<Seq<char>>) -> Visit,
) -> bool {
    &&& forall|i: int|
        0 <= i < current.len() ==> exists|key: Seq<Seq<char>>| #[trigger]
            tree.dom().contains(key) && taken_at(found, key, (#[trigger] current[i]).path)
                && tree[key] == Entry::File(current[i].bytes)
    &&& forall|key: Seq<Seq<char>>|
        tree.dom().contains(key) && walked(found, key) && (#[trigger] found(key)) is Take
            ==> exists|i: int|
            0 <= i < current.len() && (#[trigger] current[i]).path == found(key)->Take_0@
}

/// `dirs` holds each directory that the walk noted, and no others.
pub open spec fn gathers_dirs(
    dirs: Seq<Seq<char>>,
    tree: Tree,
    found: spec_fn(Seq<Seq<char>>) -> Visit,
) -> bool {
    &&& forall|i: int|
        0 <= i < dirs.len() ==> exists|key: Seq<Seq<char>>| #[trigger]
            tree.dom().contains(key) && noted_at(found, key, #[trigger] dirs[i])
    &&& forall|key: Seq<Seq<char>>|
        tree.dom().contains(key) && walked(found, key) && (#[trigger] found(key)) is Descend
            ==> exists|i: int| 0 <= i < dirs.len() && #[trigger] dirs[i] == found(key)->Descend_0@
}

/// Outside the runtime's own directory each directory is noted and each file
/// taken, at its names; inside it and of links nothing is.
spec fn answers_all(tree: Tree, found: spec_fn(Seq<Seq<char>>) -> Visit) -> bool {
    forall|key: Seq<Seq<char>>| #[trigger]
        tree.dom().contains(key) ==> {
            &&& crate::host_path::path_parts(by_names(key)) == key
            &&& if key[0] == ".v9r"@ {
                found(key) is Skip
            } else {
                match tree[key] {
                    Entry::File(_) => found(key) matches Visit::Take(p) && p@ == by_names(key),
                    Entry::Dir => found(key) matches Visit::Descend(p) && p@ == by_names(key),
                    _ => found(key) is Skip,
                }
            }
        }
}

proof fn lemma_all_is_walked(
    tree: Tree,
    found: spec_fn(Seq<Seq<char>>) -> Visit,
    key: Seq<Seq<char>>,
    n: int,
)
    requires
        is_tree(tree),
        answers_all(tree, found),
        tree.dom().contains(key),
        key[0] != ".v9r"@,
        0 < n <= key.len(),
    ensures
        tree.dom().contains(key.take(n)),
        n < key.len() ==> found(key.take(n)) is Descend && tree[key.take(n)] is Dir,
    decreases key.len() - n,
{
    if n < key.len() {
        lemma_all_is_walked(tree, found, key, n + 1);
        let below = key.take(n + 1);
        assert(below.drop_last() =~= key.take(n));
        assert(key.take(n)[0] == key[0]);
    } else {
        assert(key.take(n) =~= key);
    }
}

proof fn lemma_walked(tree: Tree, found: spec_fn(Seq<Seq<char>>) -> Visit, key: Seq<Seq<char>>)
    requires
        is_tree(tree),
        answers_all(tree, found),
        tree.dom().contains(key),
        key[0] != ".v9r"@,
    ensures
        walked(found, key),
{
    assert forall|n: int| 0 < n < key.len() implies found(#[trigger] key.take(n)) is Descend by {
        lemma_all_is_walked(tree, found, key, n);
    }
}

/// A checkpoint is a snapshot of the whole directory: whatever the tree, what
/// its walk gathers are exactly the regular files outside the runtime's own
/// directory, with their sizes and hashes, and exactly the directories there.
pub proof fn lemma_checkpoints_are_snapshots<'a>(
    root: &'a str,
    at: spec_fn(Seq<Seq<char>>) -> &'a str,
    tree: Tree,
    found: spec_fn(Seq<Seq<char>>) -> Visit,
    files: Seq<FileModel>,
    dirs: Seq<Seq<char>>,
)
    requires
        is_tree(tree),
        forall|key: Seq<Seq<char>>| #[trigger]
            tree.dom().contains(key) ==> {
                &&& !(tree[key] is Symlink)
                &&& leads_down(root@, at(key)@, key)
                &&& call_ensures(
                    visit_for_backup,
                    (root, at(key), class_of(tree[key])),
                    Ok::<Visit, TransactionError>(found(key)),
                )
            },
        gathers_files(files, tree, found),
        gathers_dirs(dirs, tree, found),
    ensures
        crate::snapshot::is_snapshot_of(files, kept_files(tree)),
        forall|key: Seq<Seq<char>>| #[trigger]
            crate::snapshot::dir_at(dirs, key) == is_kept_dir(tree, key),
        crate::snapshot::are_apart(files, dirs),
        crate::snapshot::holds_its_parents(files, dirs),
{
    assert(answers_all(tree, found)) by {
        assert forall|key: Seq<Seq<char>>| #[trigger] tree.dom().contains(key) implies {
            &&& crate::host_path::path_parts(by_names(key)) == key
            &&& if key[0] == ".v9r"@ {
                found(key) is Skip
            } else {
                match tree[key] {
                    Entry::File(_) => found(key) matches Visit::Take(p) && p@ == by_names(key),
                    Entry::Dir => found(key) matches Visit::Descend(p) && p@ == by_names(key),
                    _ => found(key) is Skip,
                }
            }
        } by {
            lemma_checkpoints_visit_everything(
                root,
                at(key),
                key,
                class_of(tree[key]),
                Ok(found(key)),
            );
            lemma_below_by_names(root@, at(key)@, key);
        }
    }
    lemma_gathered_files(tree, found, files);
    lemma_gathered_dirs(tree, found, dirs);
    lemma_gathered_hang_together(tree, found, files, dirs);
}

proof fn lemma_gathered_files(
    tree: Tree,
    found: spec_fn(Seq<Seq<char>>) -> Visit,
    files: Seq<FileModel>,
)
    requires
        is_tree(tree),
        answers_all(tree, found),
        gathers_files(files, tree, found),
    ensures
        crate::snapshot::is_snapshot_of(files, kept_files(tree)),
{
    let state = kept_files(tree);
    assert forall|i: int| 0 <= i < files.len() implies {
        let key = crate::host_path::path_parts((#[trigger] files[i]).path);
        state.dom().contains(key) && state[key].len() <= u64::MAX && files[i]
            == crate::snapshot::fingerprint(files[i].path, state[key])
    } by {
        let key = choose|key: Seq<Seq<char>>| #[trigger]
            tree.dom().contains(key) && taken_at(found, key, files[i].path) && tree[key] is File
                && files[i] == crate::snapshot::fingerprint(files[i].path, tree[key]->File_0);
        assert(key[0] != ".v9r"@);
        assert(crate::host_path::path_parts(files[i].path) == key);
        assert(state.dom().contains(key));
    }
    assert forall|key: Seq<Seq<char>>| #[trigger] state.dom().contains(key) implies exists|i: int|
        0 <= i < files.len() && crate::host_path::path_parts((#[trigger] files[i]).path) == key by {
        assert(tree.dom().contains(key));
        lemma_walked(tree, found, key);
        assert(found(key) is Take);
        let i = choose|i: int|
            0 <= i < files.len() && (#[trigger] files[i]).path == found(key)->Take_0@;
        assert(crate::host_path::path_parts(files[i].path) == key);
    }
}

proof fn lemma_gathered_dirs(
    tree: Tree,
    found: spec_fn(Seq<Seq<char>>) -> Visit,
    dirs: Seq<Seq<char>>,
)
    requires
        is_tree(tree),
        answers_all(tree, found),
        gathers_dirs(dirs, tree, found),
    ensures
        forall|key: Seq<Seq<char>>| #[trigger]
            crate::snapshot::dir_at(dirs, key) == is_kept_dir(tree, key),
{
    assert forall|key: Seq<Seq<char>>| #[trigger]
        crate::snapshot::dir_at(dirs, key) == is_kept_dir(tree, key) by {
        if crate::snapshot::dir_at(dirs, key) {
            lemma_dir_is_kept(tree, found, dirs, key);
        }
        if is_kept_dir(tree, key) {
            lemma_walked(tree, found, key);
            lemma_dir_is_held(tree, found, dirs, key);
        }
    }
}

proof fn lemma_dir_is_kept(
    tree: Tree,
    found: spec_fn(Seq<Seq<char>>) -> Visit,
    dirs: Seq<Seq<char>>,
    key: Seq<Seq<char>>,
)
    requires
        answers_all(tree, found),
        forall|i: int|
            0 <= i < dirs.len() ==> exists|key: Seq<Seq<char>>| #[trigger]
                tree.dom().contains(key) && noted_at(found, key, #[trigger] dirs[i]),
        crate::snapshot::dir_at(dirs, key),
    ensures
        is_kept_dir(tree, key),
{
    let i = choose|i: int|
        0 <= i < dirs.len() && crate::host_path::path_parts(#[trigger] dirs[i]) == key;
    let k = choose|k: Seq<Seq<char>>| #[trigger]
        tree.dom().contains(k) && noted_at(found, k, dirs[i]);
    assert(tree.dom().contains(k));
    assert(crate::host_path::path_parts(by_names(k)) == k);
    assert(k == key);
}

proof fn lemma_dir_is_held(
    tree: Tree,
    found: spec_fn(Seq<Seq<char>>) -> Visit,
    dirs: Seq<Seq<char>>,
    key: Seq<Seq<char>>,
)
    requires
        answers_all(tree, found),
        forall|key: Seq<Seq<char>>|
            tree.dom().contains(key) && walked(found, key) && (#[trigger] found(key)) is Descend
                ==> exists|i: int|
                0 <= i < dirs.len() && #[trigger] dirs[i] == found(key)->Descend_0@,
        is_kept_dir(tree, key),
        walked(found, key),
    ensures
        crate::snapshot::dir_at(dirs, key),
{
    assert(tree.dom().contains(key));
    assert(found(key) is Descend);
    let i = choose|i: int| 0 <= i < dirs.len() && #[trigger] dirs[i] == found(key)->Descend_0@;
    assert(crate::host_path::path_parts(dirs[i]) == key);
}

proof fn lemma_gathered_hang_together(
    tree: Tree,
    found: spec_fn(Seq<Seq<char>>) -> Visit,
    files: Seq<FileModel>,
    dirs: Seq<Seq<char>>,
)
    requires
        is_tree(tree),
        answers_all(tree, found),
        crate::snapshot::is_snapshot_of(files, kept_files(tree)),
        forall|key: Seq<Seq<char>>| #[trigger]
            crate::snapshot::dir_at(dirs, key) == is_kept_dir(tree, key),
    ensures
        crate::snapshot::are_apart(files, dirs),
        crate::snapshot::holds_its_parents(files, dirs),
{
    assert forall|i: int| 0 <= i < files.len() implies !crate::snapshot::dir_known(
        dirs,
        (#[trigger] files[i]).path,
    ) by {
        let key = crate::host_path::path_parts(files[i].path);
        assert(kept_files(tree).dom().contains(key));
        if crate::snapshot::dir_known(dirs, files[i].path) {
            assert(crate::snapshot::dir_at(dirs, key));
        }
    }
    assert forall|i: int, key: Seq<Seq<char>>|
        0 <= i < files.len() && #[trigger] crate::snapshot::is_above(
            key,
            crate::host_path::path_parts(files[i].path),
        ) implies crate::snapshot::dir_at(dirs, key) by {
        let whole = crate::host_path::path_parts(files[i].path);
        assert(kept_files(tree).dom().contains(whole));
        lemma_all_is_walked(tree, found, whole, key.len() as int);
        assert(whole.take(key.len() as int) =~= key);
        assert(is_kept_dir(tree, key));
    }
    assert forall|i: int, key: Seq<Seq<char>>|
        0 <= i < dirs.len() && #[trigger] crate::snapshot::is_above(
            key,
            crate::host_path::path_parts(dirs[i]),
        ) implies crate::snapshot::dir_at(dirs, key) by {
        let whole = crate::host_path::path_parts(dirs[i]);
        assert(crate::snapshot::dir_at(dirs, whole));
        assert(is_kept_dir(tree, whole));
        lemma_all_is_walked(tree, found, whole, key.len() as int);
        assert(whole.take(key.len() as int) =~= key);
        assert(is_kept_dir(tree, key));
    }
}

/// The listing for a rollback is one of the whole directory: whatever the
/// tree, what its walk gathers are exactly the regular files outside the
/// runtime's own directory, with their contents, and exactly the directories
/// there.
pub proof fn lemma_rollbacks_list_everything<'a>(
    root: &'a str,
    at: spec_fn(Seq<Seq<char>>) -> &'a str,
    tree: Tree,
    found: spec_fn(Seq<Seq<char>>) -> Visit,
    current: Seq<CurrentModel>,
    dirs: Seq<Seq<char>>,
)
    requires
        is_tree(tree),
        forall|key: Seq<Seq<char>>| #[trigger]
            tree.dom().contains(key) ==> {
                &&& leads_down(root@, at(key)@, key)
                &&& call_ensures(
                    visit_for_rollback,
                    (root, at(key), class_of(tree[key])),
                    Ok::<Visit, TransactionError>(found(key)),
                )
            },
        gathers_contents(current, tree, found),
        gathers_dirs(dirs, tree, found),
    ensures
        crate::snapshot::is_listing_of(current, kept_files(tree)),
        forall|key: Seq<Seq<char>>| #[trigger]
            crate::snapshot::dir_at(dirs, key) == is_kept_dir(tree, key),
{
    let state = kept_files(tree);
    assert(answers_all(tree, found)) by {
        assert forall|key: Seq<Seq<char>>| #[trigger] tree.dom().contains(key) implies {
            &&& crate::host_path::path_parts(by_names(key)) == key
            &&& if key[0] == ".v9r"@ {
                found(key) is Skip
            } else {
                match tree[key] {
                    Entry::File(_) => found(key) matches Visit::Take(p) && p@ == by_names(key),
                    Entry::Dir => found(key) matches Visit::Descend(p) && p@ == by_names(key),
                    _ => found(key) is Skip,
                }
            }
        } by {
            lemma_rollbacks_visit_everything(
                root,
                at(key),
                key,
                class_of(tree[key]),
                Ok(found(key)),
            );
            lemma_below_by_names(root@, at(key)@, key);
        }
    }
    lemma_gathered_dirs(tree, found, dirs);
    assert forall|i: int| 0 <= i < current.len() implies {
        let key = crate::host_path::path_parts((#[trigger] current[i]).path);
        state.dom().contains(key) && state[key] == current[i].bytes
    } by {
        let key = choose|key: Seq<Seq<char>>| #[trigger]
            tree.dom().contains(key) && taken_at(found, key, current[i].path) && tree[key]
                == Entry::File(current[i].bytes);
        assert(crate::host_path::path_parts(current[i].path) == key);
        assert(state.dom().contains(key));
    }
    assert forall|key: Seq<Seq<char>>| #[trigger] state.dom().contains(key) implies exists|i: int|
        0 <= i < current.len() && crate::host_path::path_parts((#[trigger] current[i]).path)
            == key by {
        assert(tree.dom().contains(key));
        lemma_walked(tree, found, key);
        assert(found(key) is Take);
        let i = choose|i: int|
            0 <= i < current.len() && (#[trigger] current[i]).path == found(key)->Take_0@;
        assert(crate::host_path::path_parts(current[i].path) == key);
    }
}

/// `files` holds each file that the walk took, with its contents, and no
/// others.
pub open spec fn gathers_packed(
    files: Seq<PackedModel>,
    tree: Tree,
    found: spec_fn(Seq<Seq<char>>) -> Visit,
) -> bool {
    &&& forall|i: int|
        0 <= i < files.len() ==> exists|key: Seq<Seq<char>>| #[trigger]
            tree.dom().contains(key) && taken_at(found, key, (#[trigger] files[i]).path)
                && tree[key] == Entry::File(files[i].bytes)
    &&& forall|key: Seq<Seq<char>>|
        tree.dom().contains(key) && walked(found, key) && (#[trigger] found(key)) is Take
            ==> exists|i: int|
            0 <= i < files.len() && (#[trigger] files[i]).path == found(key)->Take_0@
}

/// The entry at `key` is a regular file that is no trace.
pub open spec fn is_packed_file(tree: Tree, key: Seq<Seq<char>>, bytes: Seq<u8>) -> bool {
    tree.dom().contains(key) && tree[key] == Entry::File(bytes) && key.last() != "trace.jsonl"@
}

/// A bundle holds the whole directory: whatever the tree, what its walk packs
/// are exactly the regular files, at any depth, but for traces, each with its
/// contents and under the names that lead to it; and each such path can be
/// taken out of a bundle again.
pub proof fn lemma_bundles_hold_everything<'a>(
    root: &'a str,
    at: spec_fn(Seq<Seq<char>>) -> &'a str,
    tree: Tree,
    found: spec_fn(Seq<Seq<char>>) -> Visit,
    files: Seq<PackedModel>,
)
    requires
        is_tree(tree),
        forall|key: Seq<Seq<char>>| #[trigger]
            tree.dom().contains(key) ==> {
                &&& leads_down(root@, at(key)@, key)
                &&& call_ensures(
                    visit_for_bundle,
                    (root, at(key), class_of(tree[key])),
                    Ok::<Visit, BundleError>(found(key)),
                )
            },
        gathers_packed(files, tree, found),
    ensures
        forall|i: int|
            0 <= i < files.len() ==> is_packed_file(
                tree,
                crate::host_path::path_parts((#[trigger] files[i]).path),
                files[i].bytes,
            ) && crate::bundle::is_packed_path(files[i].path),
        forall|key: Seq<Seq<char>>, bytes: Seq<u8>| #[trigger]
            is_packed_file(tree, key, bytes) ==> exists|i: int|
                0 <= i < files.len() && (#[trigger] files[i]).path == by_names(key)
                    && files[i].bytes == bytes,
{
    assert forall|i: int| 0 <= i < files.len() implies is_packed_file(
        tree,
        crate::host_path::path_parts((#[trigger] files[i]).path),
        files[i].bytes,
    ) && crate::bundle::is_packed_path(files[i].path) by {
        let key = choose|key: Seq<Seq<char>>| #[trigger]
            tree.dom().contains(key) && taken_at(found, key, files[i].path) && tree[key]
                == Entry::File(files[i].bytes);
        lemma_bundles_visit_everything(root, at(key), key, class_of(tree[key]), Ok(found(key)));
        lemma_below_by_names(root@, at(key)@, key);
        assert(files[i].path == by_names(key));
    }
    assert forall|key: Seq<Seq<char>>, bytes: Seq<u8>| #[trigger]
        is_packed_file(tree, key, bytes) implies exists|i: int|
        0 <= i < files.len() && (#[trigger] files[i]).path == by_names(key) && files[i].bytes
            == bytes by {
        lemma_bundles_visit_everything(root, at(key), key, class_of(tree[key]), Ok(found(key)));
        lemma_below_by_names(root@, at(key)@, key);
        assert forall|n: int| 0 < n < key.len() implies found(#[trigger] key.take(n)) is Descend by {
            lemma_ways_are_dirs(tree, key, n);
            let up = key.take(n);
            lemma_bundles_visit_everything(root, at(up), up, class_of(tree[up]), Ok(found(up)));
        }
        assert(walked(found, key));
        assert(found(key) is Take);
        let i = choose|i: int|
            0 <= i < files.len() && (#[trigger] files[i]).path == found(key)->Take_0@;
        let k = choose|k: Seq<Seq<char>>| #[trigger]
            tree.dom().contains(k) && taken_at(found, k, files[i].path) && tree[k]
                == Entry::File(files[i].bytes);
        lemma_bundles_visit_everything(root, at(k), k, class_of(tree[k]), Ok(found(k)));
        lemma_below_by_names(root@, at(k)@, k);
        assert(k == key);
    }
}

proof fn lemma_ways_are_dirs(tree: Tree, key: Seq<Seq<char>>, n: int)
    requires
        is_tree(tree),
        tree.dom().contains(key),
        0 < n <= key.len(),
    ensures
        tree.dom().contains(key.take(n)),
        n < key.len() ==> tree[key.take(n)] is Dir,
    decreases key.len() - n,
{
    if n < key.len() {
        lemma_ways_are_dirs(tree, key, n + 1);
        assert(key.take(n + 1).drop_last() =~= key.take(n));
    } else {
        assert(key.take(n) =~= key);
    }
}

} // verus!
