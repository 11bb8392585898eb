//! What single words and texts stand for: names of providers, yes and no,
//! paths as they are shown and as they are refused, and the lines of a bundle.

use vstd::prelude::*;

use bytes::Bytes;

use crate::adapter::AdapterError;
use crate::args::{parse_inspect_args, InspectArgs};
use crate::bundle::TaskBundle;
use crate::output::inspect_lines;
use crate::provider::ProviderKind;
use crate::repl::parse_bool;
use crate::snapshot::fnv64;
use crate::task_fs::{safe_relative_path, TransactionError};
use crate::vfs::{Created, EntryModel, HostListing, DirEntry, Lookup, Vfs};
use crate::vfs_path::{VfsError, VfsPath, VfsResult};

verus! {

/// A provider goes by its names, and by no others.
pub proof fn lemma_providers_go_by_their_names(value: &str, r: Result<ProviderKind, AdapterError>)
    requires
        call_ensures(ProviderKind::parse, (value,), r),
    ensures
        r == Ok::<ProviderKind, AdapterError>(ProviderKind::Ollama) <==> value@ == "ollama"@,
        r == Ok::<ProviderKind, AdapterError>(ProviderKind::OpenAiCompatible) <==> value@
            == "openai"@ || value@ == "openai-compatible"@ || value@ == "openrouter"@ || value@
            == "groq"@,
{
    reveal_strlit("ollama");
    reveal_strlit("openai");
    reveal_strlit("openai-compatible");
    reveal_strlit("openrouter");
    reveal_strlit("groq");
    assert("ollama"@[1] == 'l' && "openai"@[1] == 'p');
    assert("ollama"@.len() == 6 && "openai-compatible"@.len() == 17);
    assert("openrouter"@.len() == 10 && "groq"@.len() == 4);
}

/// A yes and a no go by four words each, and by no others.
pub proof fn lemma_yes_and_no(value: &str, r: Result<bool, String>)
    requires
        call_ensures(parse_bool, (value,), r),
    ensures
        r == Ok::<bool, String>(true) <==> value@ == "1"@ || value@ == "true"@ || value@ == "yes"@
            || value@ == "on"@,
        r == Ok::<bool, String>(false) <==> value@ == "0"@ || value@ == "false"@ || value@ == "no"@
            || value@ == "off"@,
{
    reveal_strlit("1");
    reveal_strlit("true");
    reveal_strlit("yes");
    reveal_strlit("on");
    reveal_strlit("0");
    reveal_strlit("false");
    reveal_strlit("no");
    reveal_strlit("off");
    assert("1"@.len() == 1 && "0"@.len() == 1 && "1"@[0] == '1' && "0"@[0] == '0');
    assert("on"@.len() == 2 && "no"@.len() == 2 && "on"@[0] == 'o' && "no"@[0] == 'n');
    assert("yes"@.len() == 3 && "off"@.len() == 3 && "yes"@[0] == 'y' && "off"@[0] == 'o');
    assert("true"@.len() == 4 && "false"@.len() == 5);
}

/// `inspect` takes the bundle that it is given, and nothing else.
pub proof fn lemma_inspect_takes_a_bundle(
    args: &Vec<String>,
    from: usize,
    r: Result<InspectArgs, String>,
)
    requires
        call_ensures(parse_inspect_args, (args, from), r),
    ensures
        from >= args@.len() ==> (r matches Ok(a) && a.bundle is None),
        args@.len() == from + 2 && args@[from as int]@ == "--bundle"@ ==> (r matches Ok(a) && (
        a.bundle matches Some(b) && b@ == args@[from + 1]@)),
        args@.len() == from + 1 && args@[from as int]@ == "--bundle"@ ==> r is Err,
        from < args@.len() && args@[from as int]@ != "--bundle"@ ==> r is Err,
{
    let all = crate::text::texts(args@);
    assert(all.len() == args@.len());
    if from < args@.len() {
        assert(all[from as int] == args@[from as int]@);
    }
    if from + 1 < args@.len() {
        assert(all[from + 1] == args@[from + 1]@);
    }
    reveal_with_fuel(crate::args::inspect_args_from, 3);
}

/// A path is shown as its names with a slash before each, the root as one
/// slash.
pub proof fn lemma_paths_are_shown(path: &VfsPath, r: String)
    requires
        call_ensures(VfsPath::display, (path,), r),
    ensures
        r@ == seq!['/'] + crate::text::joined_with(path@, seq!['/']),
{
    if path@.len() == 0 {
        assert(seq!['/'] + crate::text::joined_with(path@, seq!['/']) =~= seq!['/']);
    } else {
        lemma_slashed_is_joined(path@);
    }
}

proof fn lemma_slashed_is_joined(names: Seq<Seq<char>>)
    requires
        names.len() > 0,
    ensures
        crate::vfs_path::slashed(names) == seq!['/'] + crate::text::joined_with(names, seq!['/']),
    decreases names.len(),
{
    let less = names.drop_last();
    if names.len() == 1 {
        assert(crate::vfs_path::slashed(less) =~= Seq::empty());
        assert(crate::vfs_path::slashed(names) =~= seq!['/'] + names[0]);
    } else {
        lemma_slashed_is_joined(less);
        assert(crate::vfs_path::slashed(names) =~= seq!['/'] + crate::text::joined_with(
            names,
            seq!['/'],
        ));
    }
}

/// A path out of a snapshot is taken exactly where it is not empty and each of
/// its components names an entry.
pub proof fn lemma_odd_paths_are_refused(rel: &str, r: Result<(), TransactionError>)
    requires
        call_ensures(safe_relative_path, (rel,), r),
    ensures
        r is Ok <==> rel@.len() > 0 && !crate::host_path::path_parts(rel@).contains("/"@)
            && !crate::host_path::path_parts(rel@).contains("."@)
            && !crate::host_path::path_parts(rel@).contains(".."@),
        r matches Err(e) ==> e is Safety,
{
    lemma_odd_part(crate::host_path::path_parts(rel@), 0);
    let parts = crate::host_path::path_parts(rel@);
    if crate::task_fs::first_odd_part(parts, 0) is None {
        assert forall|k: int| 0 <= k < parts.len() implies crate::host_path::is_normal(
            #[trigger] parts[k],
        ) by {}
    }
}

proof fn lemma_odd_part(parts: Seq<Seq<char>>, i: int)
    requires
        0 <= i <= parts.len(),
    ensures
        match crate::task_fs::first_odd_part(parts, i) {
            Some(p) => parts.contains(p) && (p == "/"@ || p == "."@ || p == ".."@),
            None => forall|k: int|
                i <= k < parts.len() ==> #[trigger] parts[k] != "/"@ && parts[k] != "."@
                    && parts[k] != ".."@,
        },
    decreases parts.len() - i,
{
    if i < parts.len() {
        lemma_odd_part(parts, i + 1);
    }
}

/// A file is made where a directory stands to hold it and nothing has its
/// name, and nowhere else; what is refused changes nothing.
pub proof fn lemma_files_are_made_in_directories(
    vfs: &mut Vfs,
    path: &VfsPath,
    content: Bytes,
    r: VfsResult<Created>,
)
    requires
        call_ensures(Vfs::create_file, (vfs, path, content), r),
    ensures
        r is Ok <==> path@.len() > 0 && crate::vfs::lookup(old(vfs)@.tree, path@.drop_last())
            == Lookup::Found(EntryModel::Dir) && !old(vfs)@.tree.dom().contains(path@),
        r is Err ==> final(vfs)@.tree == old(vfs)@.tree,
        path@.len() == 0 ==> r matches Err(VfsError::InvalidPath(_)),
        path@.len() > 0 && crate::vfs::lookup(old(vfs)@.tree, path@.drop_last()) is NotFound
            ==> r matches Err(VfsError::NotFound),
        path@.len() > 0 && crate::vfs::lookup(old(vfs)@.tree, path@.drop_last()) is NotADir
            ==> r matches Err(VfsError::NotADir),
        path@.len() > 0 && crate::vfs::lookup(old(vfs)@.tree, path@.drop_last()) == Lookup::Found(
            EntryModel::Dir,
        ) && old(vfs)@.tree.dom().contains(path@) ==> r matches Err(VfsError::AlreadyExists),
{
}

/// Where nothing stands, neither in memory nor on the host, there is nothing
/// to list; what stands on the host alone is listed as the host has it.
pub proof fn lemma_missing_directories_are_not_listed(
    vfs: &Vfs,
    path: &VfsPath,
    host: HostListing,
    r: VfsResult<Vec<DirEntry>>,
)
    requires
        call_ensures(Vfs::list, (vfs, path, host), r),
        crate::vfs::lookup(vfs@.tree, path@) is NotFound,
    ensures
        host is Nowhere ==> r matches Err(VfsError::NotFound),
        host is NotADir ==> r matches Err(VfsError::NotADir),
        host matches HostListing::Dir(names) ==> r is Ok,
{
}

/// What memory alone has is listed, with nothing of the host.
pub proof fn lemma_unmounted_directories_are_listed(
    vfs: &Vfs,
    path: &VfsPath,
    name: Seq<char>,
    r: VfsResult<Vec<DirEntry>>,
)
    requires
        call_ensures(Vfs::list, (vfs, path, HostListing::Nowhere), r),
        crate::vfs::lookup(vfs@.tree, path@) == Lookup::Found(EntryModel::Dir),
        vfs@.tree.dom().contains(path@.push(name)),
    ensures
        r matches Ok(out) && crate::vfs::entry_views(out@).contains(
            crate::vfs::EntryView {
                name,
                kind: crate::hosting_laws::standing(vfs@.tree[path@.push(name)]),
            },
        ),
{
    let base = choose|base: Seq<crate::vfs::EntryView>| #[trigger]
        crate::vfs::arena_listing(base, vfs@.tree, path@) && crate::vfs::listing_of(
            r,
            base,
            HostListing::Nowhere,
        );
    let k = choose|k: int| 0 <= k < base.len() && (#[trigger] base[k]).name == name;
    crate::order::lemma_sorted_contains(base, base[k]);
    assert(base.contains(base[k]));
}

/// What is shown of a bundle begins with its version, where it comes from, how
/// that ended, and how much it holds.
pub proof fn lemma_inspections_begin(b: &TaskBundle, r: Vec<String>)
    requires
        call_ensures(inspect_lines, (b,), r),
    ensures
        ({
            let shown = crate::text::texts(r@);
            &&& shown.len() >= 7
            &&& shown[0] == "bundle.version="@ + crate::text::decimal(b.version as nat)
            &&& shown[1] == "bundle.source_task_id="@ + crate::ids::hyphenated(b.source_task_id.0)
            &&& shown[2] == "bundle.source_status="@ + crate::task::status_text(b.source_status)
            &&& shown[3] == "bundle.files="@ + crate::text::decimal(b.files@.len())
            &&& shown[4] == "bundle.artifact_hashes="@ + crate::text::decimal(
                b.artifact_hashes@.len(),
            )
        }),
{
}

/// The hash takes one byte after the other, from its basis on: each is mixed in
/// by exclusive or, and the outcome is multiplied by the prime.
pub proof fn lemma_hashes_go_on(a: &[u8], b: &[u8], last: u8, h: u64, k: u64)
    requires
        call_ensures(fnv64, (a,), h),
        call_ensures(fnv64, (b,), k),
        b@ == a@.push(last),
    ensures
        k == ((h ^ (last as u64)) * 0x100000001b3) % 0x1_0000_0000_0000_0000,
        a@.len() == 0 ==> h == 0xcbf29ce484222325,
{
    assert(b@.drop_last() =~= a@);
}

} // verus!
