//! What is done when the manifest of an agent or one of its triggers is
//! written.

use bytes::Bytes;
use vstd::prelude::*;

use crate::agent_manifest::{Manifest, ManifestError, TrustLevel};
use crate::arena::bytes_from;
use crate::cap::{HostCapability, MountMode, NamespaceView};
use crate::registry::{AgentRecord, AgentRegistry};
use crate::runtime::AgentId;
use crate::text::{cat, cat3, owned, same_text, utf8_text};
use crate::vfs::{Vfs, VfsCtx, WriteEvent, WriteStep};
use crate::vfs_path::{Capability, VfsError, VfsPath, VfsResult};
use crate::watch::{PathPattern, WatchTable};

verus! {

/// Calls an export of an agent when one of its triggers is written.
#[derive(Clone, Debug)]
pub struct AgentTriggerHandler {
    pub export: String,
}

/// What a route leads to.
#[derive(Clone, Debug)]
pub enum Handler {
    /// A manifest was written: take the agent up.
    Manifest,
    /// A trigger was written: call the agent.
    Trigger(AgentTriggerHandler),
}

/// A handler as it counts.
pub ghost enum HandlerModel {
    Manifest,
    Trigger(Seq<char>),
}

impl View for Handler {
    type V = HandlerModel;

    open spec fn view(&self) -> HandlerModel {
        match self {
            Handler::Manifest => HandlerModel::Manifest,
            Handler::Trigger(h) => HandlerModel::Trigger(h.export@),
        }
    }
}

/// The directory of an agent, and its name there.
#[derive(Debug)]
pub struct AgentPlace {
    pub dir: VfsPath,
    pub name: String,
}

/// The agent whose directory a file stands in. `what` says what the file is.
pub fn agent_place(path: &VfsPath, what: &str) -> (r: Result<AgentPlace, String>)
    ensures
        match r {
            Ok(p) => path@.len() >= 2 && p.dir@ == path@.drop_last() && p.name@
                == path@.drop_last().last(),
            Err(m) => path@.len() < 2 && m@ == (if path@.len() == 0 {
                what@ + " has no parent dir"@
            } else {
                "agent dir has no name"@
            }),
        },
{
    match path.parent() {
        None => Err(cat(what, " has no parent dir")),
        Some(dir) => {
            let name = match dir.last() {
                None => {
                    return Err(owned("agent dir has no name"));
                },
                Some(n) => owned(n),
            };
            Ok(AgentPlace { dir, name })
        },
    }
}

/// Why an agent was not taken up.
#[derive(Debug)]
pub enum LoadError {
    Utf8(String),
    Manifest(ManifestError),
    Vfs(VfsError),
}

impl LoadError {
    /// The message shown for this error.
    pub open spec fn text(&self) -> Seq<char> {
        match self {
            LoadError::Utf8(m) => "manifest not utf-8: "@ + m@,
            LoadError::Manifest(e) => e.text(),
            LoadError::Vfs(e) => e.text(),
        }
    }

    /// The message shown for this error.
    pub fn message(&self) -> (r: String)
        ensures
            r@ == self.text(),
    {
        match self {
            LoadError::Utf8(m) => cat("manifest not utf-8: ", m.as_str()),
            LoadError::Manifest(e) => e.message(),
            LoadError::Vfs(e) => e.message(),
        }
    }
}

/// The text of a manifest.
pub fn manifest_text(bytes: Vec<u8>) -> (r: Result<String, LoadError>)
    ensures
        if vstd::utf8::valid_utf8(bytes@) {
            r matches Ok(s) && s@ == vstd::utf8::decode_utf8(bytes@)
        } else {
            r matches Err(LoadError::Utf8(m)) && m@ == crate::text::utf8_error_text(bytes@)
        },
{
    match utf8_text(bytes) {
        Ok(s) => Ok(s),
        Err(m) => Err(LoadError::Utf8(m)),
    }
}

/// Checks the manifest of the agent with the given name, given what its text
/// was read as, or why it could not be read.
pub fn check_manifest(found: Result<Manifest, String>, name: &str) -> (r: Result<
    Manifest,
    LoadError,
>)
    ensures
        match found {
            Err(why) => r matches Err(LoadError::Manifest(ManifestError::Parse(m))) && m == why,
            Ok(read) => match crate::agent_manifest::refusal(read@, name@) {
                Some(why) => r matches Err(LoadError::Manifest(e)) && crate::agent_manifest::tells(
                    e,
                    why,
                ),
                None => r matches Ok(m) && m == read,
            },
        },
{
    match found {
        Err(why) => Err(LoadError::Manifest(ManifestError::Parse(why))),
        Ok(m) => match m.validate(name) {
            Err(e) => Err(LoadError::Manifest(e)),
            Ok(_) => Ok(m),
        },
    }
}

/// `dir` with an empty file for each name that is not there yet.
pub open spec fn with_files(
    tree: crate::vfs::Tree,
    dir: Seq<Seq<char>>,
    names: Seq<Seq<char>>,
) -> crate::vfs::Tree
    decreases names.len(),
{
    if names.len() == 0 {
        tree
    } else {
        let before = with_files(tree, dir, names.drop_last());
        let at = dir.push(names.last());
        if before.dom().contains(at) {
            before
        } else {
            before.insert(at, crate::vfs::EntryModel::File(Seq::empty()))
        }
    }
}

/// The files that an agent starts with: one for each trigger, and `output`.
pub open spec fn agent_files(triggers: Seq<crate::agent_manifest::TriggerModel>) -> Seq<
    Seq<char>,
> {
    triggers.map_values(|t: crate::agent_manifest::TriggerModel| t.path).push("output"@)
}

/// The names of an agent's own files are segments.
proof fn lemma_own_names()
    ensures
        crate::vfs_path::valid_segment("output"@),
        crate::vfs_path::valid_segment("log"@),
{
    reveal_strlit("output");
    reveal_strlit("log");
    reveal_strlit(".");
    reveal_strlit("..");
    assert("output"@.len() == 6 && "log"@.len() == 3);
    assert("."@.len() == 1 && ".."@.len() == 2);
    assert forall|i: int| 0 <= i < 6 implies "output"@[i] != '/' by {
    }
    assert forall|i: int| 0 <= i < 3 implies "log"@[i] != '/' by {
    }
}

proof fn lemma_lookup_above(
    tree: crate::vfs::Tree,
    path: Seq<Seq<char>>,
    at: Seq<Seq<char>>,
    e: crate::vfs::EntryModel,
)
    requires
        at.len() > path.len(),
    ensures
        crate::vfs::lookup(tree.insert(at, e), path) == crate::vfs::lookup(tree, path),
    decreases path.len(),
{
    if path.len() > 0 {
        lemma_lookup_above(tree, path.drop_last(), at, e);
    }
}

proof fn lemma_files_keep_dir(
    tree: crate::vfs::Tree,
    dir: Seq<Seq<char>>,
    names: Seq<Seq<char>>,
)
    ensures
        crate::vfs::lookup(with_files(tree, dir, names), dir) == crate::vfs::lookup(tree, dir),
    decreases names.len(),
{
    if names.len() > 0 {
        lemma_files_keep_dir(tree, dir, names.drop_last());
        let before = with_files(tree, dir, names.drop_last());
        lemma_lookup_above(
            before,
            dir,
            dir.push(names.last()),
            crate::vfs::EntryModel::File(Seq::empty()),
        );
    }
}

/// Makes an empty file in a directory, unless something stands there.
fn ensure_file(vfs: &mut Vfs, dir: &VfsPath, name: &str) -> (r: VfsResult<()>)
    requires
        crate::vfs_path::valid_segment(name@),
        old(vfs).wf(),
        old(vfs).node_count() < crate::arena::arena_limit(),
    ensures
        final(vfs).wf(),
        final(vfs)@.mounts == old(vfs)@.mounts,
        old(vfs).node_count() <= final(vfs).node_count() <= old(vfs).node_count() + 1,
        if crate::vfs::lookup(old(vfs)@.tree, dir@) == crate::vfs::Lookup::Found(
            crate::vfs::EntryModel::Dir,
        ) {
            r is Ok && final(vfs)@.tree == (if old(vfs)@.tree.dom().contains(dir@.push(name@)) {
                old(vfs)@.tree
            } else {
                old(vfs)@.tree.insert(
                    dir@.push(name@),
                    crate::vfs::EntryModel::File(Seq::empty()),
                )
            })
        } else {
            final(vfs)@.tree == old(vfs)@.tree && (r matches Err(e) && crate::vfs::put_refusal(
                old(vfs)@.tree,
                dir@.push(name@),
                e,
            ))
        },
{
    let at = dir.join(name);
    proof {
        assert(at@.drop_last() =~= dir@);
    }
    let nothing: Vec<u8> = Vec::new();
    proof {
        assert(nothing@ =~= Seq::<u8>::empty());
    }
    match vfs.create_file(&at, bytes_from(nothing)) {
        Ok(_) => Ok(()),
        Err(e) => match e {
            VfsError::AlreadyExists => Ok(()),
            e => Err(e),
        },
    }
}

/// Readies the directory of an agent: an empty file for each trigger and for
/// `output`, silently and only where none stands, and its log behind `log`.
/// Says where its module is, where it has one.
pub fn prepare_agent(vfs: &mut Vfs, dir: &VfsPath, manifest: &Manifest, log: u64) -> (r: VfsResult<
    Option<VfsPath>,
>)
    requires
        old(vfs).wf(),
        old(vfs).node_count() + manifest@.triggers.len() + 2 <= crate::arena::arena_limit(),
        crate::agent_manifest::first_bad_trigger(manifest@.triggers) is None,
    ensures
        final(vfs).wf(),
        final(vfs)@.mounts == old(vfs)@.mounts,
        if crate::vfs::lookup(old(vfs)@.tree, dir@) != crate::vfs::Lookup::Found(
            crate::vfs::EntryModel::Dir,
        ) {
            final(vfs)@.tree == old(vfs)@.tree && (r matches Err(e) && crate::vfs::put_refusal(
                old(vfs)@.tree,
                dir@.push(agent_files(manifest@.triggers)[0]),
                e,
            ))
        } else {
            let made = with_files(old(vfs)@.tree, dir@, agent_files(manifest@.triggers));
            let at = dir@.push("log"@);
            if made.dom().contains(at) && made[at] == crate::vfs::EntryModel::Dir {
                final(vfs)@.tree == made && (r matches Err(VfsError::IsDir))
            } else {
                final(vfs)@.tree == made.insert(at, crate::vfs::EntryModel::Synthetic(log))
                    && match manifest@.agent.module {
                    None => r matches Ok(None),
                    Some(m) => match crate::vfs_path::parsed(m) {
                        Some(rel) => r matches Ok(Some(p)) && p@ == dir@ + rel,
                        None => r matches Err(VfsError::InvalidPath(why)) && why@
                            == "path escapes root: "@ + m,
                    },
                }
            }
        },
{
    let ghost names = agent_files(manifest@.triggers);
    let ghost start = vfs@.tree;
    let ghost ready = crate::vfs::lookup(start, dir@) == crate::vfs::Lookup::Found(
        crate::vfs::EntryModel::Dir,
    );
    let ghost first = vfs.node_count();
    let mut i: usize = 0;
    proof {
        assert(names.take(0) =~= Seq::empty());
    }
    while i < manifest.triggers.len()
        invariant
            i <= manifest.triggers.len(),
            vfs.wf(),
            vfs@.mounts == old(vfs)@.mounts,
            start == old(vfs)@.tree,
            names == agent_files(manifest@.triggers),
            ready == (crate::vfs::lookup(start, dir@) == crate::vfs::Lookup::Found(
                crate::vfs::EntryModel::Dir,
            )),
            vfs.node_count() <= first + i,
            first + manifest@.triggers.len() + 2 <= crate::arena::arena_limit(),
            i > 0 ==> ready,
            vfs@.tree == with_files(start, dir@, names.take(i as int)),
            crate::agent_manifest::first_bad_trigger(manifest@.triggers) is None,
        decreases manifest.triggers.len() - i,
    {
        proof {
            lemma_files_keep_dir(start, dir@, names.take(i as int));
            assert(names.take(i + 1).drop_last() =~= names.take(i as int));
            assert(names[i as int] == manifest.triggers@[i as int]@.path);
            crate::agent_manifest::lemma_no_bad_trigger(manifest@.triggers, i as int);
            if i == 0 {
                assert(names.take(0) =~= Seq::empty());
            }
        }
        match ensure_file(vfs, dir, manifest.triggers[i].path.as_str()) {
            Ok(_) => {},
            Err(e) => {
                return Err(e);
            },
        }
        i = i + 1;
    }
    proof {
        lemma_files_keep_dir(start, dir@, names.take(i as int));
        assert(names.drop_last() =~= names.take(i as int));
        assert(names.last() == "output"@);
        lemma_own_names();
        if i == 0 {
            assert(names.take(0) =~= Seq::empty());
        }
    }
    match ensure_file(vfs, dir, "output") {
        Ok(_) => {},
        Err(e) => {
            return Err(e);
        },
    }
    let at = dir.join("log");
    proof {
        lemma_files_keep_dir(start, dir@, names);
        assert(at@.drop_last() =~= dir@);
    }
    match vfs.upsert_synthetic(&at, log) {
        Ok(_) => {},
        Err(e) => {
            return Err(e);
        },
    }
    match &manifest.agent.module {
        None => Ok(None),
        Some(m) => {
            let rel = VfsPath::parse(m.as_str())?;
            let mut full = dir.copy();
            let mut k: usize = 0;
            proof {
                assert(dir@ + rel@.take(0) =~= dir@);
                use_type_invariant(&rel);
            }
            while k < rel.depth()
                invariant
                    k <= rel@.len(),
                    crate::vfs_path::canonical(rel@),
                    full@ == dir@ + rel@.take(k as int),
                decreases rel@.len() - k,
            {
                full = full.join(rel.segment(k));
                proof {
                    assert(dir@ + rel@.take(k + 1) =~= (dir@ + rel@.take(k as int)).push(
                        rel@[k as int],
                    ));
                }
                k = k + 1;
            }
            proof {
                assert(rel@.take(rel@.len() as int) =~= rel@);
            }
            Ok(Some(full))
        },
    }
}

/// What the labels of an agent's routes begin with.
pub open spec fn agent_prefix(name: Seq<char>) -> Seq<char> {
    "agent:"@ + name + ":"@
}

/// The route of one trigger.
pub open spec fn trigger_route(
    name: Seq<char>,
    dir: Seq<Seq<char>>,
    t: crate::agent_manifest::TriggerModel,
) -> crate::watch::RouteModel<HandlerModel> {
    crate::watch::RouteModel {
        label: agent_prefix(name) + t.path,
        pattern: crate::watch::exactly(dir.push(t.path)),
        handler: HandlerModel::Trigger(t.export),
    }
}

/// The routes with those of one agent replaced: the old ones dropped, one for
/// each trigger added.
pub open spec fn routed(
    routes: Seq<crate::watch::RouteModel<HandlerModel>>,
    name: Seq<char>,
    dir: Seq<Seq<char>>,
    triggers: Seq<crate::agent_manifest::TriggerModel>,
) -> Seq<crate::watch::RouteModel<HandlerModel>>
    decreases triggers.len(),
{
    if triggers.len() == 0 {
        crate::watch::without_prefix(routes, agent_prefix(name))
    } else {
        let added = trigger_route(name, dir, triggers.last());
        crate::watch::without_label(
            routed(routes, name, dir, triggers.drop_last()),
            added.label,
        ).push(added)
    }
}

/// Takes an agent up: enters it in the registry, and replaces its routes.
/// Where its module could not be loaded, everything stays as it was.
pub fn commit_agent(
    place: AgentPlace,
    manifest: Manifest,
    log: u64,
    loaded: VfsResult<()>,
    registry: &mut AgentRegistry,
    watch: &mut WatchTable<Handler>,
) -> (r: VfsResult<()>)
    requires
        old(registry).wf(),
        crate::agent_manifest::first_bad_trigger(manifest@.triggers) is None,
    ensures
        final(registry).wf(),
        r == loaded,
        match loaded {
            Ok(_) => {
                &&& final(registry)@ == old(registry)@.insert(
                    place.name@,
                    crate::registry::RecordModel {
                        manifest: manifest@,
                        agent_dir: place.dir@,
                        log_buffer: log,
                    },
                )
                &&& final(watch)@ == routed(
                    old(watch)@,
                    place.name@,
                    place.dir@,
                    manifest@.triggers,
                )
            },
            Err(_) => final(registry)@ == old(registry)@ && final(watch)@ == old(watch)@,
        },
{
    if loaded.is_err() {
        return loaded;
    }
    let prefix = cat3("agent:", place.name.as_str(), ":");
    watch.unregister_prefix(prefix.as_str());
    let ghost all = manifest@.triggers;
    let mut i: usize = 0;
    proof {
        assert(all.take(0) =~= Seq::empty());
    }
    while i < manifest.triggers.len()
        invariant
            i <= manifest.triggers.len(),
            all == manifest@.triggers,
            prefix@ == agent_prefix(place.name@),
            watch@ == routed(old(watch)@, place.name@, place.dir@, all.take(i as int)),
            crate::agent_manifest::first_bad_trigger(all) is None,
        decreases manifest.triggers.len() - i,
    {
        proof {
            assert(all.take(i + 1).drop_last() =~= all.take(i as int));
            assert(all.take(i + 1).last() == manifest.triggers@[i as int]@);
            crate::agent_manifest::lemma_no_bad_trigger(all, i as int);
        }
        let t = &manifest.triggers[i];
        let at = place.dir.join(t.path.as_str());
        let handler = Handler::Trigger(AgentTriggerHandler { export: owned(t.export.as_str()) });
        watch.register(cat(prefix.as_str(), t.path.as_str()), PathPattern::exact(&at), handler);
        i = i + 1;
    }
    proof {
        assert(all.take(all.len() as int) =~= all);
    }
    registry.upsert(
        AgentId::new(place.name),
        AgentRecord { manifest, agent_dir: place.dir, log_buffer: log },
    );
    loaded
}

/// The agent that a trigger wakes.
pub fn triggered_agent<'a>(registry: &'a AgentRegistry, place: &AgentPlace) -> (r: Result<
    &'a AgentRecord,
    String,
>)
    requires
        registry.wf(),
    ensures
        match r {
            Ok(rec) => registry@.dom().contains(place.name@) && rec@ == registry@[place.name@],
            Err(m) => !registry@.dom().contains(place.name@) && m@ == "agent "@ + place.name@
                + " not in registry"@,
        },
{
    let id = AgentId::new(owned(place.name.as_str()));
    match registry.get(&id) {
        Some(rec) => Ok(rec),
        None => Err(cat3("agent ", place.name.as_str(), " not in registry")),
    }
}

/// The mounts that a manifest asks for, or the first of its paths that leaves
/// the root.
pub open spec fn view_mounts(mounts: Seq<crate::agent_manifest::MountRequest>) -> Result<
    Seq<crate::cap::MountModel>,
    Seq<char>,
>
    decreases mounts.len(),
{
    if mounts.len() == 0 {
        Ok(Seq::empty())
    } else {
        let m = mounts.last();
        match view_mounts(mounts.drop_last()) {
            Err(bad) => Err(bad),
            Ok(l) => match crate::vfs_path::parsed(m.virtual_path) {
                None => Err(m.virtual_path),
                Some(virt) => match crate::vfs_path::parsed(m.real_path) {
                    None => Err(m.real_path),
                    Some(place) => Ok(
                        l.push(
                            crate::cap::MountModel {
                                virtual_path: virt,
                                real_path: place,
                                mode: crate::agent_manifest::granted_mode(m.mode),
                            },
                        ),
                    ),
                },
            },
        }
    }
}

proof fn lemma_view_error(mounts: Seq<crate::agent_manifest::MountRequest>, n: int)
    requires
        0 <= n <= mounts.len(),
        view_mounts(mounts.take(n)) is Err,
    ensures
        view_mounts(mounts) == view_mounts(mounts.take(n)),
    decreases mounts.len() - n,
{
    if n == mounts.len() {
        assert(mounts.take(n) =~= mounts);
    } else {
        assert(mounts.take(n + 1).drop_last() =~= mounts.take(n));
        lemma_view_error(mounts, n + 1);
    }
}

/// An agent may use the network: those of the system, and the gateway.
pub open spec fn may_use_network(agent: crate::agent_manifest::AgentModel) -> bool {
    agent.trust == TrustLevel::System || agent.name == "llm_gateway"@
}

/// The view that a manifest describes, under the capability of the root.
pub fn build_view_from_manifest(manifest: &Manifest) -> (r: VfsResult<NamespaceView>)
    ensures
        match view_mounts(manifest@.mounts) {
            Ok(mounts) => r matches Ok(view) && view@.mounts == mounts && view@.cap == 0
                && view@.host_capabilities == (if may_use_network(manifest@.agent) {
                seq![HostCapability::CanAccessNetwork]
            } else {
                Seq::empty()
            }),
            Err(bad) => r matches Err(VfsError::InvalidPath(m)) && m@ == "path escapes root: "@
                + bad,
        },
{
    let mut builder = NamespaceView::builder(Capability::root());
    let ghost all = manifest@.mounts;
    let mut i: usize = 0;
    proof {
        assert(all.take(0) =~= Seq::empty());
        assert(builder@.mounts =~= Seq::empty());
        assert(builder@.host_capabilities =~= Seq::empty());
    }
    while i < manifest.mounts.len()
        invariant
            i <= manifest.mounts.len(),
            all == manifest@.mounts,
            builder@.cap == 0,
            builder@.host_capabilities == Seq::<HostCapability>::empty(),
            view_mounts(all.take(i as int)) == Ok::<Seq<crate::cap::MountModel>, Seq<char>>(
                builder@.mounts,
            ),
        decreases manifest.mounts.len() - i,
    {
        let m = &manifest.mounts[i];
        proof {
            assert(all[i as int] == m@);
            assert(all.take(i + 1).drop_last() =~= all.take(i as int));
            assert(all.take(i + 1).last() == all[i as int]);
        }
        let virt = match VfsPath::parse(m.virtual_path.as_str()) {
            Ok(p) => p,
            Err(e) => {
                proof {
                    lemma_view_error(all, i + 1);
                }
                return Err(e);
            },
        };
        let place = match VfsPath::parse(m.real_path.as_str()) {
            Ok(p) => p,
            Err(e) => {
                proof {
                    lemma_view_error(all, i + 1);
                }
                return Err(e);
            },
        };
        builder = builder.mount(virt, place, MountMode::from(m.mode));
        i = i + 1;
    }
    proof {
        assert(all.take(all.len() as int) =~= all);
    }
    let system = match manifest.agent.trust {
        TrustLevel::System => true,
        TrustLevel::User => false,
    };
    if system || same_text(manifest.agent.name.as_str(), "llm_gateway") {
        builder = builder.host_capability(HostCapability::CanAccessNetwork);
        proof {
            assert(builder@.host_capabilities =~= seq![HostCapability::CanAccessNetwork]);
        }
    }
    Ok(builder.build())
}

/// What storing an agent's output comes to.
#[derive(Debug)]
pub enum OutputStep {
    /// It is stored; announce the event, where there is one.
    Stored(Option<WriteEvent>),
    /// Hand it to the code behind this handle.
    Synthetic { handle: u64, ctx: VfsCtx, data: Bytes },
}

/// Stores an agent's output: writes its `output`, or makes it where there is
/// none.
pub fn store_output(vfs: &mut Vfs, dir: &VfsPath, out: Vec<u8>) -> (r: VfsResult<OutputStep>)
    requires
        old(vfs).wf(),
        old(vfs).node_count() < crate::arena::arena_limit(),
    ensures
        final(vfs).wf(),
        final(vfs)@.mounts == old(vfs)@.mounts,
        ({
            let at = dir@.push("output"@);
            let stored = old(vfs)@.tree.insert(at, crate::vfs::EntryModel::File(out@));
            match crate::vfs::lookup(old(vfs)@.tree, at) {
                crate::vfs::Lookup::Found(crate::vfs::EntryModel::File(_)) => final(vfs)@.tree
                    == stored && (r matches Ok(OutputStep::Stored(Some(ev))) && ev.path@ == at
                    && ev.bytes_len == out@.len() && ev.writer.0 == 0 && final(vfs).node_at(at) == Some(
                    ev.node.0,
                )),
                crate::vfs::Lookup::Found(crate::vfs::EntryModel::Synthetic(h)) => final(vfs)@.tree
                    == old(vfs)@.tree && (r matches Ok(
                    OutputStep::Synthetic { handle, ctx, data },
                ) && handle == h && ctx.path@ == at && ctx.writer.0 == 0
                    && crate::arena::bytes_contents(data) == out@),
                crate::vfs::Lookup::Found(crate::vfs::EntryModel::Dir) => final(vfs)@.tree == old(
                    vfs,
                )@.tree && (r matches Err(VfsError::IsDir)),
                crate::vfs::Lookup::NotADir => final(vfs)@.tree == old(vfs)@.tree && (r matches Err(
                    VfsError::NotADir,
                )),
                crate::vfs::Lookup::NotFound => if crate::vfs::lookup(old(vfs)@.tree, dir@)
                    == crate::vfs::Lookup::Found(crate::vfs::EntryModel::Dir) {
                    final(vfs)@.tree == stored && (r matches Ok(OutputStep::Stored(event))
                        && match event {
                        None => out@.len() == 0,
                        Some(ev) => out@.len() > 0 && ev.path@ == at && ev.bytes_len == out@.len()
                            && ev.writer.0 == 0 && final(vfs).node_at(at) == Some(ev.node.0),
                    })
                } else {
                    final(vfs)@.tree == old(vfs)@.tree && (r matches Err(VfsError::NotFound))
                },
            }
        }),
{
    proof {
        lemma_own_names();
    }
    let at = dir.join("output");
    let cap = Capability::root();
    let again = copy_bytes(&out);
    proof {
        assert(at@.drop_last() =~= dir@);
        crate::vfs::lemma_filesystem_is_closed(*vfs);
        crate::vfs::lemma_lookup_finds(vfs@.tree, at@);
    }
    match vfs.write(&cap, &at, bytes_from(out)) {
        Ok(WriteStep::Stored(ev)) => Ok(OutputStep::Stored(Some(ev))),
        Ok(WriteStep::Synthetic { handle, ctx, data }) => Ok(
            OutputStep::Synthetic { handle, ctx, data },
        ),
        Err(VfsError::NotFound) => match vfs.create_file(&at, bytes_from(again)) {
            Ok(made) => Ok(OutputStep::Stored(made.event)),
            Err(e) => Err(e),
        },
        Err(e) => Err(e),
    }
}

fn copy_bytes(v: &Vec<u8>) -> (r: Vec<u8>)
    ensures
        r@ == v@,
{
    let mut out: Vec<u8> = Vec::new();
    let mut i: usize = 0;
    while i < v.len()
        invariant
            i <= v.len(),
            out@ == v@.take(i as int),
        decreases v.len() - i,
    {
        out.push(v[i]);
        proof {
            assert(v@.take(i + 1) =~= v@.take(i as int).push(v@[i as int]));
        }
        i = i + 1;
    }
    proof {
        assert(v@.take(v@.len() as int) =~= v@);
    }
    out
}

/// Where the agent of a user sees anything, it is under its own directory,
/// `/tools` or `/shared`.
pub proof fn lemma_user_view_confined(
    m: crate::agent_manifest::AgentManifestModel,
    dir: Seq<char>,
    mounts: Seq<crate::cap::MountModel>,
    path: Seq<Seq<char>>,
)
    requires
        crate::vfs_path::valid_segment(dir),
        crate::agent_manifest::refusal(m, dir) is None,
        m.agent.trust == TrustLevel::User,
        view_mounts(m.mounts) == Ok::<Seq<crate::cap::MountModel>, Seq<char>>(mounts),
    ensures
        crate::cap::resolved_through(mounts, path) matches Some((target, mode)) ==> (seq![
            "agents"@,
            dir,
        ].is_prefix_of(target) || seq!["tools"@].is_prefix_of(target)
            || seq!["shared"@].is_prefix_of(target)),
{
    if let Some((target, mode)) = crate::cap::resolved_through(mounts, path) {
        crate::cap::lemma_resolution_is_contained(mounts, path);
        crate::cap::lemma_longest_prefix_wins(mounts, path);
        let through = crate::cap::mount_for(mounts, path)->0;
        let i = choose|i: int| 0 <= i < mounts.len() && mounts[i] == through;
        lemma_view_mounts(m.mounts, i);
        crate::agent_manifest::lemma_user_mounts_confined(m, dir, i);
        let place = through.real_path;
        lemma_prefix_chain(seq!["agents"@, dir], place, target);
        lemma_prefix_chain(seq!["tools"@], place, target);
        lemma_prefix_chain(seq!["shared"@], place, target);
    }
}

proof fn lemma_prefix_chain(a: Seq<Seq<char>>, b: Seq<Seq<char>>, c: Seq<Seq<char>>)
    requires
        b.is_prefix_of(c),
    ensures
        a.is_prefix_of(b) ==> a.is_prefix_of(c),
{
    if a.is_prefix_of(b) {
        assert(a =~= c.subrange(0, a.len() as int));
    }
}

proof fn lemma_view_mounts(mounts: Seq<crate::agent_manifest::MountRequest>, i: int)
    requires
        view_mounts(mounts) matches Ok(l) && 0 <= i < l.len(),
    ensures
        view_mounts(mounts) matches Ok(l) && l.len() == mounts.len()
            && crate::vfs_path::parsed(mounts[i].real_path) == Some(l[i].real_path),
    decreases mounts.len(),
{
    if mounts.len() > 0 {
        let less = mounts.drop_last();
        let l = view_mounts(mounts)->Ok_0;
        let l0 = view_mounts(less)->Ok_0;
        lemma_view_mounts_len(less);
        if i < l0.len() {
            lemma_view_mounts(less, i);
            assert(l[i] == l0[i]);
        }
    }
}

proof fn lemma_view_mounts_len(mounts: Seq<crate::agent_manifest::MountRequest>)
    ensures
        view_mounts(mounts) matches Ok(l) ==> l.len() == mounts.len(),
    decreases mounts.len(),
{
    if mounts.len() > 0 {
        lemma_view_mounts_len(mounts.drop_last());
    }
}

/// Once an agent is taken up, writing a trigger leads to the export of the
/// last trigger of that name.
pub proof fn lemma_triggers_are_routed(
    routes: Seq<crate::watch::RouteModel<HandlerModel>>,
    name: Seq<char>,
    dir: Seq<Seq<char>>,
    triggers: Seq<crate::agent_manifest::TriggerModel>,
    i: int,
)
    requires
        0 <= i < triggers.len(),
        forall|j: int| i < j < triggers.len() ==> (#[trigger] triggers[j]).path != triggers[i].path,
    ensures
        crate::watch::handler_for(
            routed(routes, name, dir, triggers),
            dir.push(triggers[i].path),
        ) == Some(HandlerModel::Trigger(triggers[i].export)),
{
    lemma_trigger_wins(routes, name, dir, triggers, i);
}

proof fn lemma_trigger_wins(
    routes: Seq<crate::watch::RouteModel<HandlerModel>>,
    name: Seq<char>,
    dir: Seq<Seq<char>>,
    triggers: Seq<crate::agent_manifest::TriggerModel>,
    i: int,
)
    requires
        0 <= i < triggers.len(),
        forall|j: int| i < j < triggers.len() ==> (#[trigger] triggers[j]).path != triggers[i].path,
    ensures
        ({
            let table = routed(routes, name, dir, triggers);
            let path = dir.push(triggers[i].path);
            crate::watch::best_route(table, path, table.len() as int) matches Some(k) && 0 <= k
                < table.len() && table[k] == trigger_route(name, dir, triggers[i])
        }),
    decreases triggers.len(),
{
    let n = triggers.len() - 1;
    let less = triggers.drop_last();
    let before = routed(routes, name, dir, less);
    let added = trigger_route(name, dir, triggers[n]);
    let keep = |r: crate::watch::RouteModel<HandlerModel>| r.label != added.label;
    let kept = before.filter(keep);
    let table = routed(routes, name, dir, triggers);
    let path = dir.push(triggers[i].path);
    assert(table == kept.push(added));
    if i == n {
        crate::watch::lemma_last_exact_is_taken(kept, added, path);
    } else {
        let r = trigger_route(name, dir, triggers[i]);
        assert forall|j: int| i < j < less.len() implies (#[trigger] less[j]).path
            != less[i].path by {
            assert(triggers[j].path != triggers[i].path);
        }
        lemma_trigger_wins(routes, name, dir, less, i);
        assert(triggers[n].path != triggers[i].path);
        let p = agent_prefix(name);
        if r.label == added.label {
            assert(r.label.skip(p.len() as int) =~= triggers[i].path);
            assert(added.label.skip(p.len() as int) =~= triggers[n].path);
        }
        crate::watch::lemma_dropping_keeps_best(before, keep, path);
        let other = dir.push(triggers[n].path);
        crate::watch::lemma_exact_covers_one(other, path);
        if other == path {
            assert(other.last() == path.last());
        }
        crate::watch::lemma_pushing_keeps_best(kept, added, path);
    }
}

/// Taking an agent up leaves the routes of everything else alone.
pub proof fn lemma_other_routes_stay(
    routes: Seq<crate::watch::RouteModel<HandlerModel>>,
    name: Seq<char>,
    dir: Seq<Seq<char>>,
    triggers: Seq<crate::agent_manifest::TriggerModel>,
    r: crate::watch::RouteModel<HandlerModel>,
)
    requires
        routes.contains(r),
        !agent_prefix(name).is_prefix_of(r.label),
    ensures
        routed(routes, name, dir, triggers).contains(r),
    decreases triggers.len(),
{
    let p = agent_prefix(name);
    if triggers.len() == 0 {
        let i = choose|i: int| 0 <= i < routes.len() && routes[i] == r;
        routes.lemma_filter_contains(
            |r: crate::watch::RouteModel<HandlerModel>| !p.is_prefix_of(r.label),
            i,
        );
    } else {
        let before = routed(routes, name, dir, triggers.drop_last());
        let added = trigger_route(name, dir, triggers.last());
        let keep = |r: crate::watch::RouteModel<HandlerModel>| r.label != added.label;
        lemma_other_routes_stay(routes, name, dir, triggers.drop_last(), r);
        assert(p =~= added.label.subrange(0, p.len() as int));
        let i = choose|i: int| 0 <= i < before.len() && before[i] == r;
        before.lemma_filter_contains(keep, i);
        let kept = before.filter(keep);
        let k = choose|k: int| 0 <= k < kept.len() && kept[k] == r;
        assert(kept.push(added)[k] == r);
    }
}

/// Once an agent is taken up, its routes are those of its triggers and no
/// others.
pub proof fn lemma_stale_routes_are_gone(
    routes: Seq<crate::watch::RouteModel<HandlerModel>>,
    name: Seq<char>,
    dir: Seq<Seq<char>>,
    triggers: Seq<crate::agent_manifest::TriggerModel>,
    r: crate::watch::RouteModel<HandlerModel>,
)
    requires
        routed(routes, name, dir, triggers).contains(r),
        agent_prefix(name).is_prefix_of(r.label),
    ensures
        exists|i: int|
            0 <= i < triggers.len() && r == trigger_route(name, dir, #[trigger] triggers[i]),
    decreases triggers.len(),
{
    let p = agent_prefix(name);
    if triggers.len() == 0 {
        let keep = |r: crate::watch::RouteModel<HandlerModel>| !p.is_prefix_of(r.label);
        let kept = routes.filter(keep);
        let i = choose|i: int| 0 <= i < kept.len() && kept[i] == r;
        routes.lemma_filter_pred(keep, i);
    } else {
        let before = routed(routes, name, dir, triggers.drop_last());
        let added = trigger_route(name, dir, triggers.last());
        let keep = |r: crate::watch::RouteModel<HandlerModel>| r.label != added.label;
        let kept = before.filter(keep);
        let i = choose|i: int| 0 <= i < kept.push(added).len() && kept.push(added)[i] == r;
        if i < kept.len() {
            assert(kept[i] == r);
            assert(kept.contains(r));
            before.lemma_filter_contains_rev(keep, r);
            lemma_stale_routes_are_gone(routes, name, dir, triggers.drop_last(), r);
            let k = choose|k: int|
                0 <= k < triggers.drop_last().len() && r == trigger_route(
                    name,
                    dir,
                    #[trigger] triggers.drop_last()[k],
                );
            assert(r == trigger_route(name, dir, triggers[k]));
        } else {
            assert(r == trigger_route(name, dir, triggers[triggers.len() - 1]));
        }
    }
}

} // verus!
