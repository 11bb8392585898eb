//! The manifest of an agent: who it is, what it sees, and what wakes it.

use vstd::prelude::*;

use crate::cap::MountMode;
use crate::text::{cat, cat3, debug_of, has_char, is_empty_text, owned, same_text};
use crate::vfs_path::{VfsError, VfsPath};

verus! {

/// How far an agent is trusted.
#[derive(Clone, Copy, Debug, PartialEq, Eq, Structural)]
pub enum TrustLevel {
    User,
    System,
}

impl Default for TrustLevel {
    fn default() -> (r: TrustLevel)
        ensures
            r == TrustLevel::User,
    {
        TrustLevel::User
    }
}

/// The mode that a manifest asks for.
#[derive(Clone, Copy, Debug, PartialEq, Eq, Structural)]
pub enum MountModeSpec {
    Ro,
    Rw,
}

impl Default for MountModeSpec {
    fn default() -> (r: MountModeSpec)
        ensures
            r == MountModeSpec::Rw,
    {
        MountModeSpec::Rw
    }
}

/// The mode that a mount gets.
pub open spec fn granted_mode(m: MountModeSpec) -> MountMode {
    match m {
        MountModeSpec::Ro => MountMode::Ro,
        MountModeSpec::Rw => MountMode::Rw,
    }
}

impl From<MountModeSpec> for MountMode {
    fn from(m: MountModeSpec) -> (r: MountMode) {
        match m {
            MountModeSpec::Ro => MountMode::Ro,
            MountModeSpec::Rw => MountMode::Rw,
        }
    }
}

impl vstd::std_specs::convert::FromSpecImpl<MountModeSpec> for MountMode {
    open spec fn obeys_from_spec() -> bool {
        true
    }

    open spec fn from_spec(m: MountModeSpec) -> MountMode {
        granted_mode(m)
    }
}

#[derive(Clone, Debug)]
pub struct AgentSpec {
    pub name: String,
    pub trust: TrustLevel,
    pub module: Option<String>,
}

#[derive(Clone, Debug)]
pub struct MountSpec {
    pub virtual_path: String,
    pub real_path: String,
    pub mode: MountModeSpec,
}

#[derive(Clone, Debug)]
pub struct TriggerSpec {
    /// The name of a file in the agent's directory: one segment.
    pub path: String,
    /// The export to call when that file is written.
    pub export: String,
}

#[derive(Clone, Debug)]
pub struct Manifest {
    pub agent: AgentSpec,
    pub mounts: Vec<MountSpec>,
    pub triggers: Vec<TriggerSpec>,
}

pub ghost struct AgentModel {
    pub name: Seq<char>,
    pub trust: TrustLevel,
    pub module: Option<Seq<char>>,
}

pub ghost struct MountRequest {
    pub virtual_path: Seq<char>,
    pub real_path: Seq<char>,
    pub mode: MountModeSpec,
}

pub ghost struct TriggerModel {
    pub path: Seq<char>,
    pub export: Seq<char>,
}

/// The contents of a manifest.
pub ghost struct AgentManifestModel {
    pub agent: AgentModel,
    pub mounts: Seq<MountRequest>,
    pub triggers: Seq<TriggerModel>,
}

impl View for AgentSpec {
    type V = AgentModel;

    open spec fn view(&self) -> AgentModel {
        AgentModel {
            name: self.name@,
            trust: self.trust,
            module: crate::text::text_option(self.module),
        }
    }
}

impl View for MountSpec {
    type V = MountRequest;

    open spec fn view(&self) -> MountRequest {
        MountRequest {
            virtual_path: self.virtual_path@,
            real_path: self.real_path@,
            mode: self.mode,
        }
    }
}

impl View for TriggerSpec {
    type V = TriggerModel;

    open spec fn view(&self) -> TriggerModel {
        TriggerModel { path: self.path@, export: self.export@ }
    }
}

pub open spec fn requests(v: Seq<MountSpec>) -> Seq<MountRequest> {
    v.map_values(|m: MountSpec| m@)
}

pub open spec fn trigger_models(v: Seq<TriggerSpec>) -> Seq<TriggerModel> {
    v.map_values(|t: TriggerSpec| t@)
}

impl View for Manifest {
    type V = AgentManifestModel;

    open spec fn view(&self) -> AgentManifestModel {
        AgentManifestModel {
            agent: self.agent@,
            mounts: requests(self.mounts@),
            triggers: trigger_models(self.triggers@),
        }
    }
}

/// Why a manifest was refused.
#[derive(Debug)]
pub enum ManifestError {
    Parse(String),
    Utf8(String),
    Vfs(VfsError),
    NameMismatch { manifest: String, dir: String },
    BadTriggerPath { path: String },
    UntrustedMount { agent: String, trust: TrustLevel, real: String },
}

pub open spec fn trust_text(t: TrustLevel) -> Seq<char> {
    match t {
        TrustLevel::User => "User"@,
        TrustLevel::System => "System"@,
    }
}

impl ManifestError {
    /// The message shown for this error.
    pub open spec fn text(&self) -> Seq<char> {
        match self {
            ManifestError::Parse(m) => "toml parse error: "@ + m@,
            ManifestError::Utf8(m) => "manifest is not utf-8: "@ + m@,
            ManifestError::Vfs(e) => "invalid path: "@ + e.text(),
            ManifestError::NameMismatch { manifest, dir } => "name in manifest ("@
                + crate::text::debug_text(manifest@) + ") does not match agent dir ("@
                + crate::text::debug_text(dir@) + ")"@,
            ManifestError::BadTriggerPath { path } => "invalid trigger path "@
                + crate::text::debug_text(path@) + ": must be a single non-empty segment"@,
            ManifestError::UntrustedMount { agent, trust, real: place } => "agent "@
                + crate::text::debug_text(agent@) + " ("@ + trust_text(*trust)
                + ") is not allowed to mount real path "@ + crate::text::debug_text(place@),
        }
    }

    /// The message shown for this error.
    pub fn message(&self) -> (r: String)
        ensures
            r@ == self.text(),
    {
        match self {
            ManifestError::Parse(m) => cat("toml parse error: ", m.as_str()),
            ManifestError::Utf8(m) => cat("manifest is not utf-8: ", m.as_str()),
            ManifestError::Vfs(e) => cat("invalid path: ", e.message().as_str()),
            ManifestError::NameMismatch { manifest, dir } => {
                let mut r = cat3(
                    "name in manifest (",
                    debug_of(manifest.as_str()).as_str(),
                    ") does not match agent dir (",
                );
                r.append(debug_of(dir.as_str()).as_str());
                r.append(")");
                r
            },
            ManifestError::BadTriggerPath { path } => cat3(
                "invalid trigger path ",
                debug_of(path.as_str()).as_str(),
                ": must be a single non-empty segment",
            ),
            ManifestError::UntrustedMount { agent, trust, real: place } => {
                let mut r = cat3("agent ", debug_of(agent.as_str()).as_str(), " (");
                r.append(
                    match trust {
                        TrustLevel::User => "User",
                        TrustLevel::System => "System",
                    },
                );
                r.append(") is not allowed to mount real path ");
                r.append(debug_of(place.as_str()).as_str());
                r
            },
        }
    }
}

/// A trigger names one file of the agent's directory.
pub open spec fn good_trigger(path: Seq<char>) -> bool {
    crate::vfs_path::valid_segment(path)
}

/// Where agents of users may mount: their own directory, `/tools` and
/// `/shared`.
pub open spec fn open_to_users(agent: Seq<char>, place: Seq<Seq<char>>) -> bool {
    ||| (crate::vfs_path::parsed("/agents/"@ + agent) matches Some(own) && own.is_prefix_of(place))
    ||| (crate::vfs_path::parsed("/tools"@) matches Some(tools) && tools.is_prefix_of(place))
    ||| (crate::vfs_path::parsed("/shared"@) matches Some(shared) && shared.is_prefix_of(place))
}

/// Why a manifest is refused.
pub ghost enum Refusal {
    Escapes(Seq<char>),
    Name { manifest: Seq<char>, dir: Seq<char> },
    Trigger(Seq<char>),
    Mount { agent: Seq<char>, real: Seq<char> },
}

/// The error that tells of a refusal.
pub open spec fn tells(e: ManifestError, r: Refusal) -> bool {
    match r {
        Refusal::Escapes(path) => e matches ManifestError::Vfs(VfsError::InvalidPath(m)) && m@
            == "path escapes root: "@ + path,
        Refusal::Name { manifest: want, dir: have } => e matches ManifestError::NameMismatch {
            manifest,
            dir,
        } && manifest@ == want && dir@ == have,
        Refusal::Trigger(bad) => e matches ManifestError::BadTriggerPath { path } && path@ == bad,
        Refusal::Mount { agent: who, real: place } => e matches ManifestError::UntrustedMount {
            agent,
            trust,
            real: at,
        } && agent@ == who && trust == TrustLevel::User && at@ == place,
    }
}

/// What is wrong with one mount of a user's agent.
pub open spec fn mount_refusal(agent: Seq<char>, m: MountRequest) -> Option<Refusal> {
    match crate::vfs_path::parsed(m.real_path) {
        None => Some(Refusal::Escapes(m.real_path)),
        Some(place) => if open_to_users(agent, place) {
            None
        } else {
            Some(Refusal::Mount { agent, real: m.real_path })
        },
    }
}

/// What is wrong with the first of a user's mounts that is refused.
pub open spec fn first_mount_refusal(agent: Seq<char>, mounts: Seq<MountRequest>) -> Option<Refusal>
    decreases mounts.len(),
{
    if mounts.len() == 0 {
        None
    } else {
        match first_mount_refusal(agent, mounts.drop_last()) {
            Some(r) => Some(r),
            None => mount_refusal(agent, mounts.last()),
        }
    }
}

/// What is wrong with the mounts of an agent. Nothing is, with those of the
/// system.
pub open spec fn mounts_refusal(
    agent: Seq<char>,
    trust: TrustLevel,
    mounts: Seq<MountRequest>,
) -> Option<Refusal> {
    if trust == TrustLevel::System {
        None
    } else if crate::vfs_path::parsed("/agents/"@ + agent) is None {
        Some(Refusal::Escapes("/agents/"@ + agent))
    } else {
        first_mount_refusal(agent, mounts)
    }
}

/// The first trigger that is refused.
pub open spec fn first_bad_trigger(triggers: Seq<TriggerModel>) -> Option<Seq<char>>
    decreases triggers.len(),
{
    if triggers.len() == 0 {
        None
    } else {
        match first_bad_trigger(triggers.drop_last()) {
            Some(p) => Some(p),
            None => if good_trigger(triggers.last().path) {
                None
            } else {
                Some(triggers.last().path)
            },
        }
    }
}

/// What is wrong with a manifest found in a directory of the given name.
pub open spec fn refusal(m: AgentManifestModel, dir: Seq<char>) -> Option<Refusal> {
    if m.agent.name != dir {
        Some(Refusal::Name { manifest: m.agent.name, dir })
    } else {
        match first_bad_trigger(m.triggers) {
            Some(path) => Some(Refusal::Trigger(path)),
            None => mounts_refusal(m.agent.name, m.agent.trust, m.mounts),
        }
    }
}

proof fn lemma_bad_trigger_stays(triggers: Seq<TriggerModel>, n: int)
    requires
        0 <= n <= triggers.len(),
        first_bad_trigger(triggers.take(n)) is Some,
    ensures
        first_bad_trigger(triggers) == first_bad_trigger(triggers.take(n)),
    decreases triggers.len() - n,
{
    if n == triggers.len() {
        assert(triggers.take(n) =~= triggers);
    } else {
        assert(triggers.take(n + 1).drop_last() =~= triggers.take(n));
        lemma_bad_trigger_stays(triggers, n + 1);
    }
}

proof fn lemma_mount_refusal_stays(agent: Seq<char>, mounts: Seq<MountRequest>, n: int)
    requires
        0 <= n <= mounts.len(),
        first_mount_refusal(agent, mounts.take(n)) is Some,
    ensures
        first_mount_refusal(agent, mounts) == first_mount_refusal(agent, mounts.take(n)),
    decreases mounts.len() - n,
{
    if n == mounts.len() {
        assert(mounts.take(n) =~= mounts);
    } else {
        assert(mounts.take(n + 1).drop_last() =~= mounts.take(n));
        lemma_mount_refusal_stays(agent, mounts, n + 1);
    }
}

impl Manifest {
    /// Checks that the name is that of the directory, that every trigger is
    /// one segment, and that every mount is open to this trust.
    pub fn validate(&self, dir_name: &str) -> (r: Result<(), ManifestError>)
        ensures
            match r {
                Ok(_) => refusal(self@, dir_name@) is None,
                Err(e) => refusal(self@, dir_name@) matches Some(why) && tells(e, why),
            },
    {
        if !same_text(self.agent.name.as_str(), dir_name) {
            return Err(
                ManifestError::NameMismatch {
                    manifest: owned(self.agent.name.as_str()),
                    dir: owned(dir_name),
                },
            );
        }
        let ghost all = self@.triggers;
        let mut i: usize = 0;
        proof {
            assert(all.take(0) =~= Seq::empty());
        }
        while i < self.triggers.len()
            invariant
                i <= self.triggers.len(),
                all == self@.triggers,
                self@.agent.name == dir_name@,
                first_bad_trigger(all.take(i as int)) is None,
            decreases self.triggers.len() - i,
        {
            let path = self.triggers[i].path.as_str();
            proof {
                assert(all[i as int] == self.triggers@[i as int]@);
                assert(all.take(i + 1).drop_last() =~= all.take(i as int));
                assert(all.take(i + 1).last() == all[i as int]);
            }
            if is_empty_text(path) || has_char(path, '/') || same_text(path, ".") || same_text(
                path,
                "..",
            ) {
                proof {
                    lemma_bad_trigger_stays(all, i + 1);
                }
                return Err(ManifestError::BadTriggerPath { path: owned(path) });
            }
            i = i + 1;
        }
        proof {
            assert(all.take(all.len() as int) =~= all);
        }
        validate_mounts(self.agent.name.as_str(), self.agent.trust, self.mounts.as_slice())
    }
}

/// Checks that the mounts of an agent are open to it. Agents of users may
/// mount only what lies under their own directory, `/tools` or `/shared`;
/// those of the system may mount anything.
pub fn validate_mounts(agent_name: &str, trust: TrustLevel, mounts: &[MountSpec]) -> (r: Result<
    (),
    ManifestError,
>)
    ensures
        match r {
            Ok(_) => mounts_refusal(agent_name@, trust, requests(mounts@)) is None,
            Err(e) => mounts_refusal(agent_name@, trust, requests(mounts@)) matches Some(why)
                && tells(e, why),
        },
{
    match trust {
        TrustLevel::System => {
            return Ok(());
        },
        TrustLevel::User => {},
    }
    let own = match VfsPath::parse(cat("/agents/", agent_name).as_str()) {
        Ok(p) => p,
        Err(e) => {
            return Err(ManifestError::Vfs(e));
        },
    };
    proof {
        lemma_shared_places();
    }
    let tools = match VfsPath::parse("/tools") {
        Ok(p) => p,
        Err(e) => {
            return Err(ManifestError::Vfs(e));
        },
    };
    let shared = match VfsPath::parse("/shared") {
        Ok(p) => p,
        Err(e) => {
            return Err(ManifestError::Vfs(e));
        },
    };
    let ghost all = requests(mounts@);
    let mut i: usize = 0;
    proof {
        assert(all.take(0) =~= Seq::empty());
    }
    while i < mounts.len()
        invariant
            i <= mounts.len(),
            all == requests(mounts@),
            trust == TrustLevel::User,
            crate::vfs_path::parsed("/agents/"@ + agent_name@) == Some(own@),
            crate::vfs_path::parsed("/tools"@) == Some(tools@),
            crate::vfs_path::parsed("/shared"@) == Some(shared@),
            first_mount_refusal(agent_name@, all.take(i as int)) is None,
        decreases mounts.len() - i,
    {
        let m = &mounts[i];
        proof {
            assert(all[i as int] == m@);
            assert(all.take(i + 1).drop_last() =~= all.take(i as int));
            assert(all.take(i + 1).last() == all[i as int]);
        }
        let place = match VfsPath::parse(m.real_path.as_str()) {
            Ok(p) => p,
            Err(e) => {
                proof {
                    lemma_mount_refusal_stays(agent_name@, all, i + 1);
                }
                return Err(ManifestError::Vfs(e));
            },
        };
        if !place.starts_with(&own) && !place.starts_with(&tools) && !place.starts_with(&shared) {
            proof {
                lemma_mount_refusal_stays(agent_name@, all, i + 1);
            }
            return Err(
                ManifestError::UntrustedMount {
                    agent: owned(agent_name),
                    trust,
                    real: owned(m.real_path.as_str()),
                },
            );
        }
        i = i + 1;
    }
    proof {
        assert(all.take(all.len() as int) =~= all);
    }
    Ok(())
}

/// `/tools` and `/shared` are directories of the root.
pub proof fn lemma_shared_places()
    ensures
        crate::vfs_path::parsed("/tools"@) == Some(seq!["tools"@]),
        crate::vfs_path::parsed("/shared"@) == Some(seq!["shared"@]),
{
    reveal_strlit("/tools");
    reveal_strlit("/shared");
    reveal_strlit("tools");
    reveal_strlit("shared");
    reveal_strlit(".");
    reveal_strlit("..");
    assert forall|i: int| 0 <= i < "shared"@.len() implies "shared"@[i] != '/' by {
        assert(i == 0 || i == 1 || i == 2 || i == 3 || i == 4 || i == 5);
    }
    lemma_child_of_root("tools"@);
    lemma_child_of_root("shared"@);
    assert("/tools"@ =~= seq!['/'] + "tools"@);
    assert("/shared"@ =~= seq!['/'] + "shared"@);
}

proof fn lemma_child_of_root(name: Seq<char>)
    requires
        crate::vfs_path::valid_segment(name),
    ensures
        crate::vfs_path::parsed(seq!['/'] + name) == Some(seq![name]),
{
    let segs = seq![name];
    reveal_with_fuel(crate::vfs_path::slashed, 2);
    assert(segs.drop_last() =~= Seq::empty());
    assert(crate::vfs_path::displayed(segs) =~= seq!['/'] + name);
    crate::vfs_path::lemma_display_round_trip(segs);
}

/// The directory of an agent whose name is one segment.
pub proof fn lemma_own_directory(name: Seq<char>)
    requires
        crate::vfs_path::valid_segment(name),
    ensures
        crate::vfs_path::parsed("/agents/"@ + name) == Some(seq!["agents"@, name]),
{
    reveal_strlit("/agents/");
    reveal_strlit("agents");
    reveal_strlit(".");
    reveal_strlit("..");
    let segs = seq!["agents"@, name];
    reveal_with_fuel(crate::vfs_path::slashed, 3);
    assert(segs.drop_last() =~= seq!["agents"@]);
    assert(segs.drop_last().drop_last() =~= Seq::empty());
    assert(crate::vfs_path::displayed(segs) =~= "/agents/"@ + name);
    crate::vfs_path::lemma_display_round_trip(segs);
}

/// In a manifest that passes, every mount of a user's agent stays under the
/// agent's own directory, `/tools` or `/shared`.
pub proof fn lemma_user_mounts_confined(m: AgentManifestModel, dir: Seq<char>, i: int)
    requires
        crate::vfs_path::valid_segment(dir),
        refusal(m, dir) is None,
        m.agent.trust == TrustLevel::User,
        0 <= i < m.mounts.len(),
    ensures
        crate::vfs_path::parsed(m.mounts[i].real_path) matches Some(place) && (seq![
            "agents"@,
            dir,
        ].is_prefix_of(place) || seq!["tools"@].is_prefix_of(place) || seq!["shared"@].is_prefix_of(
            place,
        )),
{
    lemma_own_directory(dir);
    lemma_shared_places();
    lemma_no_refusal(m.agent.name, m.mounts, i);
}

proof fn lemma_no_refusal(agent: Seq<char>, mounts: Seq<MountRequest>, i: int)
    requires
        first_mount_refusal(agent, mounts) is None,
        0 <= i < mounts.len(),
    ensures
        mount_refusal(agent, mounts[i]) is None,
    decreases mounts.len(),
{
    if i < mounts.len() - 1 {
        lemma_no_refusal(agent, mounts.drop_last(), i);
    }
}

/// In a manifest that passes, every trigger is one segment.
pub proof fn lemma_triggers_are_segments(m: AgentManifestModel, dir: Seq<char>, i: int)
    requires
        refusal(m, dir) is None,
        0 <= i < m.triggers.len(),
    ensures
        crate::vfs_path::valid_segment(m.triggers[i].path),
{
    lemma_no_bad_trigger(m.triggers, i);
}

pub proof fn lemma_no_bad_trigger(triggers: Seq<TriggerModel>, i: int)
    requires
        first_bad_trigger(triggers) is None,
        0 <= i < triggers.len(),
    ensures
        good_trigger(triggers[i].path),
    decreases triggers.len(),
{
    if i < triggers.len() - 1 {
        lemma_no_bad_trigger(triggers.drop_last(), i);
    }
}

} // verus!
