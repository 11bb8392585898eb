//! What holds of agents and their providers: which manifests are taken, what
//! an agent then sees, which paths a pattern stands for, and what is asked of
//! a model.

use vstd::prelude::*;

use crate::adapter::{AdapterError, LlmAction};
use crate::agent_manifest::{Manifest, ManifestError, TrustLevel};
use crate::cap::{HostCapability, NamespaceView};
use crate::execution::EffectModel;
use crate::guard::{action_step, ActionStep};
use crate::handlers::build_view_from_manifest;
use crate::orchestrator::{host_to_vfs_path, ScanError};
use crate::provider::{
    chat_completions_url, normalize_base_url, LlmClient, ProviderEnv, ProviderKind,
};
use crate::trace::EventModel;
use crate::vfs_path::{VfsPath, VfsResult};
use crate::watch::PathPattern;

verus! {

/// One name of an entry.
pub open spec fn is_one_name(p: Seq<char>) -> bool {
    &&& p.len() > 0
    &&& p != "."@
    &&& p != ".."@
    &&& forall|i: int| 0 <= i < p.len() ==> #[trigger] p[i] != '/'
}

proof fn lemma_one_name(p: Seq<char>)
    ensures
        is_one_name(p) == crate::vfs_path::valid_segment(p),
{
    if p.contains('/') {
        let i = choose|i: int| 0 <= i < p.len() && p[i] == '/';
        assert(p[i] == '/');
    }
    if is_one_name(p) {
        assert(!p.contains('/'));
    } else if crate::vfs_path::valid_segment(p) {
        let i = choose|i: int| 0 <= i < p.len() && #[trigger] p[i] == '/';
        assert(p.contains(p[i]));
    }
}

/// The path leads to the agent's own directory, to the tools or to what is
/// shared, or below one of them.
pub open spec fn leads_to_open_place(agent: Seq<char>, path: Seq<char>) -> bool {
    crate::vfs_path::parsed(path) matches Some(place) && (seq!["agents"@, agent].is_prefix_of(place)
        || seq!["tools"@].is_prefix_of(place) || seq!["shared"@].is_prefix_of(place))
}

proof fn lemma_triggers_checked(triggers: Seq<crate::agent_manifest::TriggerModel>)
    ensures
        crate::agent_manifest::first_bad_trigger(triggers) is None <==> forall|i: int|
            0 <= i < triggers.len() ==> is_one_name((#[trigger] triggers[i]).path),
    decreases triggers.len(),
{
    if triggers.len() > 0 {
        let less = triggers.drop_last();
        lemma_triggers_checked(less);
        lemma_one_name(triggers.last().path);
        if crate::agent_manifest::first_bad_trigger(triggers) is None {
            assert forall|i: int| 0 <= i < triggers.len() implies is_one_name(
                (#[trigger] triggers[i]).path,
            ) by {
                if i < less.len() {
                    assert(less[i] == triggers[i]);
                }
            }
        } else if forall|i: int|
            0 <= i < triggers.len() ==> is_one_name((#[trigger] triggers[i]).path) {
            assert forall|i: int| 0 <= i < less.len() implies is_one_name(
                (#[trigger] less[i]).path,
            ) by {
                assert(less[i] == triggers[i]);
            }
            assert(is_one_name(triggers[triggers.len() - 1].path));
        }
    }
}

proof fn lemma_mounts_checked(
    agent: Seq<char>,
    mounts: Seq<crate::agent_manifest::MountRequest>,
)
    requires
        crate::vfs_path::valid_segment(agent),
    ensures
        crate::agent_manifest::first_mount_refusal(agent, mounts) is None <==> forall|i: int|
            0 <= i < mounts.len() ==> leads_to_open_place(agent, (#[trigger] mounts[i]).real_path),
    decreases mounts.len(),
{
    if mounts.len() > 0 {
        let less = mounts.drop_last();
        lemma_mounts_checked(agent, less);
        crate::agent_manifest::lemma_own_directory(agent);
        crate::agent_manifest::lemma_shared_places();
        if crate::agent_manifest::first_mount_refusal(agent, mounts) is None {
            assert forall|i: int| 0 <= i < mounts.len() implies leads_to_open_place(
                agent,
                (#[trigger] mounts[i]).real_path,
            ) by {
                if i < less.len() {
                    assert(less[i] == mounts[i]);
                }
            }
        } else if forall|i: int|
            0 <= i < mounts.len() ==> leads_to_open_place(agent, (#[trigger] mounts[i]).real_path) {
            assert forall|i: int| 0 <= i < less.len() implies leads_to_open_place(
                agent,
                (#[trigger] less[i]).real_path,
            ) by {
                assert(less[i] == mounts[i]);
            }
            assert(leads_to_open_place(agent, mounts[mounts.len() - 1].real_path));
        }
    }
}

/// A manifest is taken exactly where it has the name of its directory, each of
/// its triggers is one name, and each of its mounts leads to a place that is
/// open to it: any place for the system, its own directory, the tools and what
/// is shared for a user.
pub proof fn lemma_manifests_are_taken(m: &Manifest, dir: &str, r: Result<(), ManifestError>)
    requires
        is_one_name(dir@),
        call_ensures(Manifest::validate, (m, dir), r),
    ensures
        r is Ok <==> {
            &&& m@.agent.name == dir@
            &&& forall|i: int|
                0 <= i < m@.triggers.len() ==> is_one_name((#[trigger] m@.triggers[i]).path)
            &&& m@.agent.trust == TrustLevel::System || forall|i: int|
                0 <= i < m@.mounts.len() ==> leads_to_open_place(
                    dir@,
                    (#[trigger] m@.mounts[i]).real_path,
                )
        },
{
    lemma_one_name(dir@);
    lemma_triggers_checked(m@.triggers);
    lemma_mounts_checked(dir@, m@.mounts);
    crate::agent_manifest::lemma_own_directory(dir@);
}

proof fn lemma_view_as_asked(mounts: Seq<crate::agent_manifest::MountRequest>)
    requires
        forall|i: int|
            0 <= i < mounts.len() ==> crate::vfs_path::parsed((#[trigger] mounts[i]).virtual_path)
                is Some && crate::vfs_path::parsed(mounts[i].real_path) is Some,
    ensures
        crate::handlers::view_mounts(mounts) matches Ok(l) && l.len() == mounts.len() && forall|
            i: int,
        |
            0 <= i < l.len() ==> {
                &&& crate::vfs_path::parsed(mounts[i].virtual_path) == Some(
                    (#[trigger] l[i]).virtual_path,
                )
                &&& crate::vfs_path::parsed(mounts[i].real_path) == Some(l[i].real_path)
                &&& l[i].mode is Ro <==> mounts[i].mode is Ro
            },
    decreases mounts.len(),
{
    if mounts.len() > 0 {
        let less = mounts.drop_last();
        assert forall|i: int| 0 <= i < less.len() implies crate::vfs_path::parsed(
            (#[trigger] less[i]).virtual_path,
        ) is Some && crate::vfs_path::parsed(less[i].real_path) is Some by {
            assert(less[i] == mounts[i]);
        }
        lemma_view_as_asked(less);
        let k = mounts.len() - 1;
        assert(crate::vfs_path::parsed(mounts[k].virtual_path) is Some);
        let l = crate::handlers::view_mounts(mounts)->Ok_0;
        let l0 = crate::handlers::view_mounts(less)->Ok_0;
        assert forall|i: int| 0 <= i < l.len() implies {
            &&& crate::vfs_path::parsed(mounts[i].virtual_path) == Some(
                (#[trigger] l[i]).virtual_path,
            )
            &&& crate::vfs_path::parsed(mounts[i].real_path) == Some(l[i].real_path)
            &&& l[i].mode is Ro <==> mounts[i].mode is Ro
        } by {
            if i < l0.len() {
                assert(l[i] == l0[i]);
                assert(less[i] == mounts[i]);
            }
        }
    }
}

/// An agent sees what its manifest asks for: each mount at its path, leading
/// to its place, and read-only exactly where it says so; and only the system
/// and the gateway reach the network.
pub proof fn lemma_agents_see_what_they_ask_for(m: &Manifest, r: VfsResult<NamespaceView>)
    requires
        call_ensures(build_view_from_manifest, (m,), r),
        forall|i: int|
            0 <= i < m@.mounts.len() ==> crate::vfs_path::parsed(
                (#[trigger] m@.mounts[i]).virtual_path,
            ) is Some && crate::vfs_path::parsed(m@.mounts[i].real_path) is Some,
    ensures
        r matches Ok(view) && {
            &&& view@.mounts.len() == m@.mounts.len()
            &&& forall|i: int|
                0 <= i < view@.mounts.len() ==> {
                    &&& crate::vfs_path::parsed(m@.mounts[i].virtual_path) == Some(
                        (#[trigger] view@.mounts[i]).virtual_path,
                    )
                    &&& crate::vfs_path::parsed(m@.mounts[i].real_path) == Some(
                        view@.mounts[i].real_path,
                    )
                    &&& view@.mounts[i].mode is Ro <==> m@.mounts[i].mode is Ro
                }
            &&& view@.host_capabilities.contains(HostCapability::CanAccessNetwork) <==> (
            m@.agent.trust == TrustLevel::System || m@.agent.name == "llm_gateway"@)
        },
{
    lemma_view_as_asked(m@.mounts);
    if let Ok(view) = r {
        if m@.agent.trust == TrustLevel::System || m@.agent.name == "llm_gateway"@ {
            assert(view@.host_capabilities[0] == HostCapability::CanAccessNetwork);
        }
    }
}

/// In a path `..` takes the segment before it away, `.` and doubled slashes
/// say nothing, and `..` at the root is refused.
pub proof fn lemma_dots_in_paths(
    pieces: Seq<Seq<char>>,
    segs: Seq<Seq<char>>,
    name: Seq<char>,
)
    requires
        crate::vfs_path::canonicalized(pieces) == Some(segs),
        is_one_name(name),
    ensures
        crate::vfs_path::canonicalized(pieces.push(name)) == Some(segs.push(name)),
        crate::vfs_path::canonicalized(pieces.push(name).push(".."@)) == Some(segs),
        crate::vfs_path::canonicalized(pieces.push("."@)) == Some(segs),
        crate::vfs_path::canonicalized(pieces.push(Seq::empty())) == Some(segs),
        segs.len() == 0 ==> crate::vfs_path::canonicalized(pieces.push(".."@)) is None,
{
    reveal_strlit(".");
    reveal_strlit("..");
    assert("."@.len() == 1 && ".."@.len() == 2);
    let more = pieces.push(name);
    assert(more.drop_last() =~= pieces);
    assert(more.push(".."@).drop_last() =~= more);
    assert(pieces.push("."@).drop_last() =~= pieces);
    assert(pieces.push(".."@).drop_last() =~= pieces);
    assert(pieces.push(Seq::<char>::empty()).drop_last() =~= pieces);
    assert(segs.push(name).drop_last() =~= segs);
}

/// A pattern written out: `*` for any one segment.
pub open spec fn pattern_segments(p: Seq<Option<Seq<char>>>) -> Seq<Seq<char>> {
    p.map_values(
        |s: Option<Seq<char>>|
            match s {
                Some(name) => name,
                None => "*"@,
            },
    )
}

proof fn lemma_pattern_read(p: Seq<Option<Seq<char>>>)
    requires
        forall|i: int|
            0 <= i < p.len() ==> (#[trigger] p[i] matches Some(n) ==> is_one_name(n) && !n.contains(
                '*',
            )),
    ensures
        crate::watch::pattern_of(seq![Seq::<char>::empty()] + pattern_segments(p)) == Ok::<
            Seq<Option<Seq<char>>>,
            Seq<char>,
        >(p),
        crate::vfs_path::canonical(pattern_segments(p)),
    decreases p.len(),
{
    reveal_strlit("*");
    reveal_strlit(".");
    reveal_strlit("..");
    let none = Seq::<char>::empty();
    let segs = pattern_segments(p);
    let all = seq![none] + segs;
    assert("*"@[0] == '*');
    assert forall|i: int| 0 <= i < segs.len() implies crate::vfs_path::valid_segment(
        #[trigger] segs[i],
    ) by {
        assert(p[i] matches Some(n) ==> is_one_name(n));
        lemma_one_name(segs[i]);
        assert("."@[0] == '.' && ".."@.len() == 2);
    }
    if p.len() == 0 {
        reveal_with_fuel(crate::watch::pattern_of, 2);
        assert(all.drop_last() =~= Seq::<Seq<char>>::empty());
        assert(p =~= Seq::<Option<Seq<char>>>::empty());
    } else {
        let less = p.drop_last();
        assert forall|i: int| 0 <= i < less.len() implies (#[trigger] less[i] matches Some(n)
            ==> is_one_name(n) && !n.contains('*')) by {
            assert(less[i] == p[i]);
        }
        lemma_pattern_read(less);
        assert(all.drop_last() =~= seq![none] + pattern_segments(less));
        let last = p[p.len() - 1];
        assert(last matches Some(n) ==> is_one_name(n) && !n.contains('*'));
        if let Some(n) = last {
            assert(n != "*"@) by {
                if n == "*"@ {
                    assert(n.contains(n[0]));
                }
            }
        }
        assert(less.push(last) =~= p);
    }
}

/// A pattern is read as it is written, and stands for the paths of its length
/// that have its names at their places, with anything where it has `*`.
pub proof fn lemma_patterns_stand_for_their_paths(
    s: &str,
    p: Seq<Option<Seq<char>>>,
    r: VfsResult<PathPattern>,
    path: &VfsPath,
    hit: bool,
)
    requires
        forall|i: int|
            0 <= i < p.len() ==> (#[trigger] p[i] matches Some(n) ==> is_one_name(n) && !n.contains(
                '*',
            )),
        s@ == crate::vfs_path::slashed(pattern_segments(p)),
        call_ensures(PathPattern::parse, (s,), r),
        r matches Ok(q) && call_ensures(PathPattern::matches, (&q, path), hit),
    ensures
        hit <==> p.len() == path@.len() && forall|i: int|
            0 <= i < p.len() ==> (#[trigger] p[i] matches Some(n) ==> path@[i] == n),
{
    lemma_pattern_read(p);
    crate::vfs_path::lemma_split_slashed(pattern_segments(p));
    if hit {
        assert forall|i: int| 0 <= i < p.len() implies (#[trigger] p[i] matches Some(n) ==> path@[i]
            == n) by {
            assert(crate::watch::segment_matches(p[i], path@[i]));
        }
    } else if p.len() == path@.len() && forall|i: int|
        0 <= i < p.len() ==> (#[trigger] p[i] matches Some(n) ==> path@[i] == n) {
        assert(crate::watch::covers(p, path@));
    }
}

pub proof fn lemma_filter_all(s: Seq<Seq<char>>, keep: spec_fn(Seq<char>) -> bool)
    requires
        forall|i: int| 0 <= i < s.len() ==> keep(#[trigger] s[i]),
    ensures
        s.filter(keep) == s,
    decreases s.len(),
{
    reveal(Seq::filter);
    if s.len() > 0 {
        let less = s.drop_last();
        assert forall|i: int| 0 <= i < less.len() implies keep(#[trigger] less[i]) by {
            assert(less[i] == s[i]);
        }
        lemma_filter_all(less, keep);
        assert(keep(s[s.len() - 1]));
        assert(less.push(s.last()) =~= s);
    } else {
        assert(s.filter(keep) =~= s);
    }
}

/// A manifest found on the host stands in the filesystem by the names that
/// lead to it from the directory that was searched.
pub proof fn lemma_found_manifests_keep_their_names(
    root: &VfsPath,
    host_root: &str,
    host_path: &str,
    names: Seq<Seq<char>>,
    r: Result<VfsPath, ScanError>,
)
    requires
        crate::walk_laws::leads_down(host_root@, host_path@, names),
        call_ensures(host_to_vfs_path, (root, host_root, host_path), r),
    ensures
        r matches Ok(p) && p@ == root@ + names,
{
    reveal_strlit("/");
    reveal_strlit(".");
    reveal_strlit("..");
    assert("/"@[0] == '/');
    let parts = crate::host_path::path_parts(host_path@);
    let top = crate::host_path::path_parts(host_root@);
    let keep = |p: Seq<char>| crate::host_path::is_normal(p);
    assert(top =~= parts.subrange(0, top.len() as int));
    assert(parts.skip(top.len() as int) =~= names);
    assert forall|i: int| 0 <= i < names.len() implies keep(#[trigger] names[i]) by {
        assert(crate::vfs_path::valid_segment(names[i]));
        assert(names[i] == "/"@ ==> names[i].contains('/'));
    }
    lemma_filter_all(names, keep);
}

/// What is given goes before what the environment says, and that before the
/// defaults of the provider; only a local provider does without a key.
pub proof fn lemma_settings_have_their_order(
    kind: ProviderKind,
    model: Option<String>,
    url: Option<String>,
    key: Option<String>,
    env: &ProviderEnv,
    r: Result<LlmClient, AdapterError>,
)
    requires
        call_ensures(LlmClient::from_config, (kind, model, url, key, env), r),
        model matches Some(m) ==> is_said(m@),
        model is None ==> (env.model matches Some(m) ==> is_said(m@)),
        key matches Some(k) ==> is_said(k@),
    ensures
        r matches Ok(c) ==> {
            let p = c.provider@;
            &&& model matches Some(m) ==> p.model_id == m@
            &&& model is None ==> (env.model matches Some(m) ==> p.model_id == m@)
            &&& model is None && env.model is None ==> p.model_id == (match kind {
                ProviderKind::OpenAiCompatible => "google/gemini-flash-1.5"@,
                ProviderKind::Ollama => "llama3"@,
            })
            &&& key matches Some(k) ==> p.api_key == Some(k@)
            &&& url matches Some(u) ==> p.base_url == crate::provider::normal_base(u@)
            &&& url is None ==> (env.base_url matches Some(u) ==> p.base_url
                == crate::provider::normal_base(u@))
        },
        kind is Ollama ==> r is Ok,
        key is Some ==> r is Ok,
        kind is OpenAiCompatible && key is None && env.api_key is None ==> r is Err,
{
    reveal_strlit("google/gemini-flash-1.5");
    reveal_strlit("llama3");
    lemma_default_models();
    if let Some(m) = model {
        crate::text::lemma_trimmed_bare(m@);
    } else if let Some(m) = env.model {
        crate::text::lemma_trimmed_bare(m@);
    }
    if let Some(k) = key {
        crate::text::lemma_trimmed_bare(k@);
    }
}

/// A key of the environment is used where none was given, and a blank key is
/// none; an address is that of the kind of provider where none was named; and a
/// blank model is the default one.
pub proof fn lemma_settings_have_their_defaults(
    kind: ProviderKind,
    model: Option<String>,
    url: Option<String>,
    key: Option<String>,
    env: &ProviderEnv,
    r: Result<LlmClient, AdapterError>,
)
    requires
        call_ensures(LlmClient::from_config, (kind, model, url, key, env), r),
    ensures
        key is None && (env.api_key matches Some(k) && is_said(k@)) ==> (r matches Ok(c)
            && c.provider@.api_key == Some(env.api_key->Some_0@)),
        key matches Some(k) ==> ((forall|i: int|
            0 <= i < k@.len() ==> crate::text::is_space(#[trigger] k@[i])) ==> if kind is Ollama {
            r matches Ok(c) && c.provider@.api_key is None
        } else {
            r is Err
        }),
        url is None && env.base_url is None ==> (r matches Ok(c) ==> c.provider@.base_url
            == crate::provider::normal_base(
            match kind {
                ProviderKind::OpenAiCompatible => "https://openrouter.ai/api/v1"@,
                ProviderKind::Ollama => "http://localhost:11434/v1"@,
            },
        )),
        model matches Some(m) ==> ((forall|i: int|
            0 <= i < m@.len() ==> crate::text::is_space(#[trigger] m@[i])) ==> (r matches Ok(c)
            ==> c.provider@.model_id == "google/gemini-flash-1.5"@)),
        r matches Err(e) ==> e is MissingApiKey,
{
    if key is None {
        if let Some(k) = env.api_key {
            if is_said(k@) {
                crate::text::lemma_trimmed_bare(k@);
            }
        }
    }
    if let Some(k) = key {
        crate::text::lemma_trimmed_empty(k@);
    }
    if let Some(m) = model {
        crate::text::lemma_trimmed_empty(m@);
    }
}

/// A client out of the environment is one for a compatible provider, with
/// nothing given.
pub proof fn lemma_environments_configure(
    env: &ProviderEnv,
    r: Result<LlmClient, AdapterError>,
    c: Result<LlmClient, AdapterError>,
)
    requires
        call_ensures(LlmClient::from_env, (env,), r),
        call_ensures(
            LlmClient::from_config,
            (ProviderKind::OpenAiCompatible, None::<String>, None::<String>, None::<String>, env),
            c,
        ),
    ensures
        r is Ok <==> c is Ok,
        r matches Ok(a) ==> (c matches Ok(b) && a.provider@ == b.provider@),
{
}

proof fn lemma_default_models()
    ensures
        crate::text::trimmed("llama3"@).len() > 0,
        crate::text::trimmed("google/gemini-flash-1.5"@).len() > 0,
{
    reveal_strlit("google/gemini-flash-1.5");
    reveal_strlit("llama3");
    assert(!crate::text::is_space('l') && !crate::text::is_space('3'));
    assert(!crate::text::is_space('g') && !crate::text::is_space('5'));
    assert("llama3"@[0] == 'l' && "llama3"@[5] == '3' && "llama3"@.len() == 6);
    assert("google/gemini-flash-1.5"@.len() == 23);
    assert("google/gemini-flash-1.5"@[0] == 'g' && "google/gemini-flash-1.5"@[22] == '5');
    crate::text::lemma_trimmed_bare("llama3"@);
    crate::text::lemma_trimmed_bare("google/gemini-flash-1.5"@);
}

/// A text without white space at its ends, and not empty.
pub open spec fn is_said(s: Seq<char>) -> bool {
    s.len() > 0 && !crate::text::is_space(s[0]) && !crate::text::is_space(s.last())
}

proof fn lemma_slashes_go(base: Seq<char>, slashes: Seq<char>)
    requires
        base.len() > 0,
        base.last() != '/',
        forall|i: int| 0 <= i < slashes.len() ==> #[trigger] slashes[i] == '/',
    ensures
        crate::provider::without_slashes(base + slashes) == base,
    decreases slashes.len(),
{
    if slashes.len() == 0 {
        assert(base + slashes =~= base);
    } else {
        let less = slashes.drop_last();
        assert forall|i: int| 0 <= i < less.len() implies #[trigger] less[i] == '/' by {
            assert(less[i] == slashes[i]);
        }
        lemma_slashes_go(base, less);
        assert(slashes[slashes.len() - 1] == '/');
        assert((base + slashes).drop_last() =~= base + less);
    }
}

/// The address of a provider is the one that was given, without the slashes at
/// its end.
pub proof fn lemma_addresses_lose_their_slashes(
    base: Seq<char>,
    slashes: Seq<char>,
    given: &str,
    normal: String,
)
    requires
        is_said(base),
        base.last() != '/',
        forall|i: int| 0 <= i < slashes.len() ==> #[trigger] slashes[i] == '/',
        given@ == base + slashes,
        call_ensures(normalize_base_url, (given,), normal),
    ensures
        normal@ == base,
{
    lemma_slashes_go(base, slashes);
    assert(!crate::text::is_space('/'));
    if slashes.len() > 0 {
        assert(slashes[slashes.len() - 1] == '/');
        assert(given@.last() == '/');
    } else {
        assert(given@ =~= base);
    }
    crate::text::lemma_trimmed_bare(given@);
}

/// Completions are asked of a provider at their own address below its base,
/// which is added once and not twice.
pub proof fn lemma_completions_have_one_address(
    base: Seq<char>,
    plain: &str,
    whole: &str,
    a: String,
    b: String,
)
    requires
        plain@ == base,
        !"/chat/completions"@.is_suffix_of(base),
        whole@ == base + "/chat/completions"@,
        call_ensures(chat_completions_url, (plain,), a),
        call_ensures(chat_completions_url, (whole,), b),
    ensures
        a@ == whole@,
        b@ == whole@,
{
    let end = "/chat/completions"@;
    assert(end =~= whole@.subrange(whole@.len() - end.len(), whole@.len() as int));
}

/// What an action of a model comes to: a write is made as it is, a task that
/// is finished gets its status and a record of it, and with a reason a record
/// of that.
pub proof fn lemma_actions_become_steps(action: LlmAction, step: ActionStep)
    requires
        call_ensures(action_step, (action,), step),
    ensures
        action matches LlmAction::Write { path, content } ==> (step matches ActionStep::Write {
            path: p,
            content: c,
        } && p@ == path@ && c@ == content@),
        action matches LlmAction::Finish { status, reason } ==> (step matches ActionStep::Finish(
            effects,
        ) && {
            let done = crate::execution::effect_models(effects@);
            &&& done.len() >= 2
            &&& done[0] == EffectModel::SetStatus(status)
            &&& done[1] == EffectModel::Log(EventModel::TaskFinished { status })
            &&& is_said(reason@) ==> done.len() == 3 && done[2] == EffectModel::Log(
                EventModel::CommandExecuted {
                    command: "finish: "@ + reason@,
                    exit_code: if status is Success {
                        0i32
                    } else {
                        1i32
                    },
                },
            )
            &&& reason@.len() == 0 ==> done.len() == 2
        }),
        action is Execute ==> step is Execute || step is Fail,
{
    if let LlmAction::Finish { status, reason } = action {
        if is_said(reason@) {
            crate::text::lemma_trimmed_bare(reason@);
        }
    }
}

} // verus!
