//! What the sidebar's overrides (order, hidden entries, remembered
//! names and per-workspace metadata) look like when persisted to the
//! data directory so they survive restart. Never written back to the
//! configuration. Reading and writing the file, and the JSON text, are
//! the caller's.

use crate::sidebar::{SidebarOverrides, SidebarOverridesView};
use crate::spawn_config::{clone_domain, SpawnCommand, SpawnCommandView, SpawnTabDomain};
use crate::strmap::{NameSet, StrMap};
use crate::text::{clone_opt, clone_opt_strings, clone_strings, opt_seq, views};
use crate::workspace_defaults::{WorkspaceMetadata, WorkspaceMetadataView};
use vstd::prelude::*;

verus! {

/// Version of the persisted layout.
pub const STATE_VERSION: u32 = 1;

/// Name of the persistence file in the data directory.
pub const STATE_FILE_NAME: &'static str = "sidebar-workspaces.json";

/// A launch profile as persisted.
#[derive(Debug, PartialEq, Eq)]
pub struct PersistedSpawnCommand {
    pub label: Option<String>,
    pub args: Option<Vec<String>>,
    pub cwd: Option<String>,
    pub set_environment_variables: StrMap<String>,
    pub domain: SpawnTabDomain,
}

impl View for PersistedSpawnCommand {
    type V = SpawnCommandView;

    open spec fn view(&self) -> SpawnCommandView {
        SpawnCommandView {
            label: self.label,
            args: opt_seq(self.args),
            cwd: self.cwd,
            env: self.set_environment_variables@,
            domain: self.domain,
        }
    }
}

impl PersistedSpawnCommand {
    /// The persisted form of a profile.
    pub fn from_command(cmd: &SpawnCommand) -> (r: Self)
        ensures
            r@ == cmd@,
    {
        PersistedSpawnCommand {
            label: clone_opt(&cmd.label),
            args: clone_opt_strings(&cmd.args),
            cwd: clone_opt(&cmd.cwd),
            set_environment_variables: cmd.set_environment_variables.copy(),
            domain: clone_domain(&cmd.domain),
        }
    }

    /// The profile a persisted form stands for.
    pub fn into_command(self) -> (r: SpawnCommand)
        ensures
            r@ == self@,
    {
        SpawnCommand {
            label: self.label,
            args: self.args,
            cwd: self.cwd,
            set_environment_variables: self.set_environment_variables,
            domain: self.domain,
        }
    }
}

/// A workspace's overrides as persisted.
#[derive(Debug, PartialEq, Eq)]
pub struct PersistedWorkspaceMetadata {
    pub cwd: Option<String>,
    pub default_command: Option<String>,
    pub profile: Option<PersistedSpawnCommand>,
    pub profile_label: Option<String>,
}

impl View for PersistedWorkspaceMetadata {
    type V = WorkspaceMetadataView;

    open spec fn view(&self) -> WorkspaceMetadataView {
        WorkspaceMetadataView {
            cwd: self.cwd,
            default_command: self.default_command,
            profile: match self.profile {
                Some(p) => Some(p@),
                None => None,
            },
            profile_label: self.profile_label,
        }
    }
}

impl PersistedWorkspaceMetadata {
    /// The persisted form of a workspace's overrides.
    pub fn from_metadata(meta: &WorkspaceMetadata) -> (r: Self)
        ensures
            r@ == meta@,
    {
        PersistedWorkspaceMetadata {
            cwd: clone_opt(&meta.cwd),
            default_command: clone_opt(&meta.default_command),
            profile: match &meta.profile {
                Some(p) => Some(PersistedSpawnCommand::from_command(p)),
                None => None,
            },
            profile_label: clone_opt(&meta.profile_label),
        }
    }

    /// The overrides a persisted form stands for.
    pub fn into_metadata(self) -> (r: WorkspaceMetadata)
        ensures
            r@ == self@,
    {
        WorkspaceMetadata {
            cwd: self.cwd,
            default_command: self.default_command,
            profile: match self.profile {
                Some(p) => Some(p.into_command()),
                None => None,
            },
            profile_label: self.profile_label,
        }
    }
}

/// Everything persisted.
#[derive(Debug, PartialEq, Eq)]
pub struct PersistedSidebarState {
    pub version: u32,
    pub order: Vec<String>,
    pub hidden: Vec<String>,
    pub remembered: Vec<String>,
    pub metadata: StrMap<PersistedWorkspaceMetadata>,
}

/// The value of a persisted state.
pub struct PersistedSidebarStateView {
    pub version: u32,
    pub order: Seq<Seq<char>>,
    pub hidden: Seq<Seq<char>>,
    pub remembered: Seq<Seq<char>>,
    pub metadata: Map<Seq<char>, WorkspaceMetadataView>,
}

impl View for PersistedSidebarState {
    type V = PersistedSidebarStateView;

    open spec fn view(&self) -> PersistedSidebarStateView {
        PersistedSidebarStateView {
            version: self.version,
            order: views(self.order@),
            hidden: views(self.hidden@),
            remembered: views(self.remembered@),
            metadata: self.metadata@.map_values(|m: PersistedWorkspaceMetadata| m@),
        }
    }
}

/// The views of the values of a map.
pub open spec fn meta_views(m: Map<Seq<char>, WorkspaceMetadata>) -> Map<Seq<char>, WorkspaceMetadataView> {
    m.map_values(|v: WorkspaceMetadata| v@)
}

/// The workspaces of `m` that override something, with their overrides.
pub open spec fn set_metadata(m: Map<Seq<char>, WorkspaceMetadata>) -> Map<Seq<char>, WorkspaceMetadataView> {
    Map::new(|k: Seq<char>| m.contains_key(k) && !m[k]@.unset(), |k: Seq<char>| m[k]@)
}

/// One more element of a sequence holds what the shorter prefix held
/// and that element.
proof fn lemma_take_one_more(keys: Seq<Seq<char>>, i: int)
    requires
        0 <= i < keys.len(),
    ensures
        forall|k: Seq<char>|
            #[trigger] keys.take(i + 1).contains(k) <==> (keys.take(i).contains(k) || k == keys[i]),
{
    let t = keys.take(i);
    assert(keys.take(i + 1) =~= t.push(keys[i]));
    assert forall|k: Seq<char>| #[trigger] keys.take(i + 1).contains(k) <==> (t.contains(k) || k
        == keys[i]) by {
        if t.contains(k) {
            let j = choose|j: int| 0 <= j < t.len() && t[j] == k;
            assert(t.push(keys[i])[j] == k);
        }
        if k == keys[i] {
            assert(t.push(keys[i])[i] == k);
        }
        if t.push(keys[i]).contains(k) {
            let j = choose|j: int| 0 <= j < t.len() + 1 && t.push(keys[i])[j] == k;
            if j < t.len() {
                assert(t[j] == k);
            }
        }
    }
}

/// Overrides of the first `i` keys of a map that override something.
spec fn set_metadata_prefix(
    keys: Seq<Seq<char>>,
    m: Map<Seq<char>, WorkspaceMetadata>,
    i: int,
) -> Map<Seq<char>, WorkspaceMetadataView> {
    Map::new(|k: Seq<char>| keys.take(i).contains(k) && !m[k]@.unset(), |k: Seq<char>| m[k]@)
}

/// What `encode` makes of the overrides and metadata.
pub open spec fn encoded(overrides: SidebarOverrides, metadata: Map<Seq<char>, WorkspaceMetadata>) -> PersistedSidebarStateView {
    PersistedSidebarStateView {
        version: STATE_VERSION,
        order: views(overrides.order@),
        hidden: overrides.hidden.sorted(),
        remembered: views(overrides.remembered@),
        metadata: set_metadata(metadata),
    }
}

/// What `decode` makes of a persisted state.
pub open spec fn decoded(state: PersistedSidebarStateView) -> (SidebarOverridesView, Map<Seq<char>, WorkspaceMetadataView>) {
    (
        SidebarOverridesView {
            order: state.order,
            hidden: state.hidden.to_set(),
            remembered: state.remembered,
        },
        state.metadata,
    )
}

/// Loading what was saved gives back the overrides: the order and the
/// remembered names as they were, the same hidden set, and the
/// metadata of exactly the workspaces that override something.
pub proof fn lemma_persist_roundtrip(overrides: SidebarOverrides, metadata: Map<Seq<char>, WorkspaceMetadata>)
    requires
        overrides.hidden.wf(),
    ensures
        decoded(encoded(overrides, metadata)) == (overrides@, set_metadata(metadata)),
{
    overrides.hidden.lemma_sorted();
}

/// The persisted form of the sidebar's overrides: order and remembered
/// names as they are, hidden names in increasing order, and the
/// metadata of the workspaces that override something.
pub fn encode(overrides: &SidebarOverrides, metadata: &StrMap<WorkspaceMetadata>) -> (r:
    PersistedSidebarState)
    ensures
        r@.version == STATE_VERSION,
        r@.order == views(overrides.order@),
        r@.hidden == overrides.hidden.sorted(),
        r@.remembered == views(overrides.remembered@),
        r@.metadata == set_metadata(metadata@),
        r@ == encoded(*overrides, metadata@),
{
    proof {
        use_type_invariant(metadata);
        metadata.lemma_seqs();
    }
    let ghost keys = metadata.key_seq();
    let ghost vals = metadata.value_seq();
    let ghost m = metadata@;
    let n = metadata.len();
    let mut out: StrMap<PersistedWorkspaceMetadata> = StrMap::new();
    let mut i: usize = 0;
    assert(out@.map_values(|v: PersistedWorkspaceMetadata| v@) =~= set_metadata_prefix(keys, m, 0));
    while i < n
        invariant
            n == keys.len(),
            i <= n,
            keys == metadata.key_seq(),
            vals == metadata.value_seq(),
            m == metadata@,
            n == m.len(),
            vals.len() == n,
            forall|j: int| 0 <= j < keys.len() ==> #[trigger] m[keys[j]] == vals[j],
            out@.map_values(|v: PersistedWorkspaceMetadata| v@) == set_metadata_prefix(keys, m, i as int),
        decreases n - i,
    {
        let meta = metadata.value_at(i);
        let ghost before = out@;
        if !meta.is_unset() {
            let key = metadata.key_at(i).clone();
            let pmeta = PersistedWorkspaceMetadata::from_metadata(meta);
            let ghost pv = pmeta@;
            out.insert(key, pmeta);
            proof {
                assert(out@.map_values(|v: PersistedWorkspaceMetadata| v@) =~= before.map_values(
                    |v: PersistedWorkspaceMetadata| v@,
                ).insert(keys[i as int], pv));
            }
        }
        proof {
            assert(m[keys[i as int]] == vals[i as int]);
            lemma_take_one_more(keys, i as int);
            assert(out@.map_values(|v: PersistedWorkspaceMetadata| v@) =~= set_metadata_prefix(
                keys,
                m,
                i + 1,
            ));
        }
        i = i + 1;
    }
    proof {
        assert(keys.take(n as int) =~= keys);
        assert(set_metadata_prefix(keys, m, n as int) =~= set_metadata(m));
    }
    PersistedSidebarState {
        version: STATE_VERSION,
        order: clone_strings(overrides.order.as_slice()),
        hidden: overrides.hidden.to_vec(),
        remembered: clone_strings(overrides.remembered.as_slice()),
        metadata: out,
    }
}

/// The overrides and metadata a persisted state stands for: hidden
/// names as a set, the rest as they are.
pub fn decode(state: PersistedSidebarState) -> (r: (SidebarOverrides, StrMap<WorkspaceMetadata>))
    ensures
        views(r.0.order@) == state@.order,
        r.0.hidden@ == state@.hidden.to_set(),
        views(r.0.remembered@) == state@.remembered,
        meta_views(r.1@) == state@.metadata,
        (r.0@, meta_views(r.1@)) == decoded(state@),
{
    let ghost sv = state@;
    let PersistedSidebarState { version: _, order, hidden, remembered, metadata } = state;
    proof {
        use_type_invariant(&metadata);
        metadata.lemma_seqs();
    }
    let ghost keys = metadata.key_seq();
    let ghost pm = metadata@;
    let n = metadata.len();
    let mut out: StrMap<WorkspaceMetadata> = StrMap::new();
    let mut i: usize = 0;
    assert(meta_views(out@) =~= Map::new(
        |k: Seq<char>| keys.take(0).contains(k),
        |k: Seq<char>| pm[k]@,
    ));
    while i < n
        invariant
            n == keys.len(),
            i <= n,
            keys == metadata.key_seq(),
            pm == metadata@,
            n == pm.len(),
            metadata.value_seq().len() == n,
            forall|j: int| 0 <= j < keys.len() ==> #[trigger] pm[keys[j]] == metadata.value_seq()[j],
            meta_views(out@) == Map::new(
                |k: Seq<char>| keys.take(i as int).contains(k),
                |k: Seq<char>| pm[k]@,
            ),
        decreases n - i,
    {
        let key = metadata.key_at(i).clone();
        let pmeta = metadata.value_at(i);
        let meta = PersistedWorkspaceMetadata {
            cwd: clone_opt(&pmeta.cwd),
            default_command: clone_opt(&pmeta.default_command),
            profile: match &pmeta.profile {
                Some(p) => Some(
                    PersistedSpawnCommand {
                        label: clone_opt(&p.label),
                        args: clone_opt_strings(&p.args),
                        cwd: clone_opt(&p.cwd),
                        set_environment_variables: p.set_environment_variables.copy(),
                        domain: clone_domain(&p.domain),
                    },
                ),
                None => None,
            },
            profile_label: clone_opt(&pmeta.profile_label),
        }.into_metadata();
        let ghost before = out@;
        let ghost mv = meta@;
        out.insert(key, meta);
        proof {
            assert(mv == pm[keys[i as int]]@);
            assert(meta_views(out@) =~= meta_views(before).insert(keys[i as int], mv));
            assert(pm[keys[i as int]] == metadata.value_seq()[i as int]);
            lemma_take_one_more(keys, i as int);
            assert(meta_views(out@) =~= Map::new(
                |k: Seq<char>| keys.take(i + 1).contains(k),
                |k: Seq<char>| pm[k]@,
            ));
        }
        i = i + 1;
    }
    proof {
        assert(keys.take(n as int) =~= keys);
        assert(meta_views(out@) =~= sv.metadata);
    }
    let overrides = SidebarOverrides {
        order,
        hidden: NameSet::from_names(hidden),
        remembered,
    };
    (overrides, out)
}

} // verus!
