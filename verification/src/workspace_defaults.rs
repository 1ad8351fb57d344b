//! Per-workspace defaults: runtime overrides, their resolution against
//! the configuration, and how a launch profile shapes a new tab.

use crate::spawn_config::{
    clone_domain, opt_spawn_view, SpawnCommand, SpawnCommandView, SpawnTabDomain, WorkspaceEntry,
};
use crate::strmap::StrMap;
use crate::text::{
    clone_opt, clone_opt_strings, clone_strings, is_blank, join_spaces, join_with_spaces, opt_seq,
    opt_view, str_eq, str_is_blank, views,
};
use vstd::prelude::*;

verus! {

/// Runtime per-workspace overrides, set from the sidebar; they win over
/// the configuration.
#[derive(Debug, PartialEq, Eq)]
pub struct WorkspaceMetadata {
    /// Default working directory.
    pub cwd: Option<String>,
    /// Text typed into the shell of new tabs.
    pub default_command: Option<String>,
    /// Default launch profile for new tabs in this workspace: a
    /// snapshot of a launch-menu entry or of a mux domain chosen at
    /// runtime. When its `domain` names a specific domain, new tabs
    /// spawn there; otherwise they stay in the spawn request's domain.
    pub profile: Option<SpawnCommand>,
    /// The label the profile was chosen under.
    pub profile_label: Option<String>,
}

/// The value of a workspace's runtime overrides.
pub struct WorkspaceMetadataView {
    pub cwd: Option<String>,
    pub default_command: Option<String>,
    pub profile: Option<SpawnCommandView>,
    pub profile_label: Option<String>,
}

impl View for WorkspaceMetadata {
    type V = WorkspaceMetadataView;

    open spec fn view(&self) -> WorkspaceMetadataView {
        WorkspaceMetadataView {
            cwd: self.cwd,
            default_command: self.default_command,
            profile: opt_spawn_view(self.profile),
            profile_label: self.profile_label,
        }
    }
}

impl WorkspaceMetadataView {
    /// Nothing is overridden.
    pub open spec fn unset(self) -> bool {
        &&& self.cwd is None
        &&& self.default_command is None
        &&& self.profile is None
        &&& self.profile_label is None
    }
}

impl WorkspaceMetadata {
    /// Whether nothing is overridden.
    pub fn is_unset(&self) -> (r: bool)
        ensures
            r == self@.unset(),
    {
        self.cwd.is_none() && self.default_command.is_none() && self.profile.is_none()
            && self.profile_label.is_none()
    }
}

impl Clone for WorkspaceMetadata {
    /// The same overrides.
    fn clone(&self) -> (r: Self)
        ensures
            r@ == self@,
    {
        WorkspaceMetadata {
            cwd: clone_opt(&self.cwd),
            default_command: clone_opt(&self.default_command),
            profile: match &self.profile {
                Some(p) => Some(p.clone()),
                None => None,
            },
            profile_label: clone_opt(&self.profile_label),
        }
    }
}

impl Default for WorkspaceMetadata {
    /// Nothing overridden.
    fn default() -> (r: Self)
        ensures
            r@.unset(),
    {
        WorkspaceMetadata { cwd: None, default_command: None, profile: None, profile_label: None }
    }
}

/// The value an optional reference points to.
pub open spec fn unref<T>(o: Option<&T>) -> Option<T> {
    match o {
        Some(x) => Some(*x),
        None => None,
    }
}

/// The view of optional overrides.
pub open spec fn opt_meta_view(o: Option<WorkspaceMetadata>) -> Option<WorkspaceMetadataView> {
    match o {
        Some(m) => Some(m@),
        None => None,
    }
}

/// A configuration entry declares `workspace`: its name is not blank and
/// equals it.
pub open spec fn declares(e: WorkspaceEntry, workspace: Seq<char>) -> bool {
    !is_blank(e.name@) && e.name@ == workspace
}

/// The first entry at or after `i` that declares `workspace`.
pub open spec fn config_entry_from(entries: Seq<WorkspaceEntry>, workspace: Seq<char>, i: int) -> Option<
    WorkspaceEntry,
>
    decreases entries.len() - i,
{
    if i < 0 || i >= entries.len() {
        None
    } else if declares(entries[i], workspace) {
        Some(entries[i])
    } else {
        config_entry_from(entries, workspace, i + 1)
    }
}

/// The entry that configures `workspace`: the first that declares it.
pub open spec fn config_entry_for(entries: Seq<WorkspaceEntry>, workspace: Seq<char>) -> Option<
    WorkspaceEntry,
> {
    config_entry_from(entries, workspace, 0)
}

/// The effective default cwd: the runtime override, else the configured
/// one, else none.
pub open spec fn resolved_cwd(
    meta: Option<WorkspaceMetadataView>,
    entries: Seq<WorkspaceEntry>,
    workspace: Seq<char>,
) -> Option<String> {
    let from_meta = match meta {
        Some(m) => m.cwd,
        None => None,
    };
    if from_meta is Some {
        from_meta
    } else {
        match config_entry_for(entries, workspace) {
            Some(e) => e.cwd,
            None => None,
        }
    }
}

/// A command, unless it is white space only: such a command counts as
/// unset.
pub open spec fn non_blank(c: Option<String>) -> Option<String> {
    match c {
        Some(s) => if is_blank(s@) {
            None
        } else {
            Some(s)
        },
        None => None,
    }
}

/// The effective default command: the runtime override, else the
/// configured one, else none; a white-space-only command counts as
/// unset at either level, so a blank override leaves the configured
/// command in force.
pub open spec fn resolved_command(
    meta: Option<WorkspaceMetadataView>,
    entries: Seq<WorkspaceEntry>,
    workspace: Seq<char>,
) -> Option<String> {
    let from_meta = match meta {
        Some(m) => non_blank(m.default_command),
        None => None,
    };
    if from_meta is Some {
        from_meta
    } else {
        match config_entry_for(entries, workspace) {
            Some(e) => non_blank(e.default_command),
            None => None,
        }
    }
}

/// Entry `j` is the first configuration entry whose name is not blank
/// and equals `workspace`.
pub open spec fn first_declaring(entries: Seq<WorkspaceEntry>, workspace: Seq<char>, j: int) -> bool {
    &&& 0 <= j < entries.len()
    &&& !is_blank(entries[j].name@)
    &&& entries[j].name@ == workspace
    &&& forall|k: int|
        0 <= k < j ==> is_blank(#[trigger] entries[k].name@) || entries[k].name@ != workspace
}

/// No configuration entry has a non-blank name equal to `workspace`.
pub open spec fn undeclared(entries: Seq<WorkspaceEntry>, workspace: Seq<char>) -> bool {
    forall|k: int|
        0 <= k < entries.len() ==> is_blank(#[trigger] entries[k].name@) || entries[k].name@
            != workspace
}

proof fn lemma_config_entry_first(entries: Seq<WorkspaceEntry>, workspace: Seq<char>, j: int, i: int)
    requires
        first_declaring(entries, workspace, j),
        0 <= i <= j,
    ensures
        config_entry_from(entries, workspace, i) == Some(entries[j]),
    decreases j - i,
{
    if i < j {
        assert(is_blank(entries[i].name@) || entries[i].name@ != workspace);
        lemma_config_entry_first(entries, workspace, j, i + 1);
    }
}

proof fn lemma_config_entry_none(entries: Seq<WorkspaceEntry>, workspace: Seq<char>, i: int)
    requires
        undeclared(entries, workspace),
        0 <= i,
    ensures
        config_entry_from(entries, workspace, i) is None,
    decreases entries.len() - i,
{
    if i < entries.len() {
        assert(is_blank(entries[i].name@) || entries[i].name@ != workspace);
        lemma_config_entry_none(entries, workspace, i + 1);
    }
}

/// The configuration entry found for a workspace is the first one
/// declaring it, and none is found when none declares it.
pub proof fn lemma_config_entry_for(entries: Seq<WorkspaceEntry>, workspace: Seq<char>)
    ensures
        forall|j: int|
            first_declaring(entries, workspace, j) ==> #[trigger] config_entry_for(entries, workspace)
                == Some(entries[j]),
        undeclared(entries, workspace) ==> config_entry_for(entries, workspace) is None,
{
    assert forall|j: int| first_declaring(entries, workspace, j) implies #[trigger] config_entry_for(
        entries,
        workspace,
    ) == Some(entries[j]) by {
        lemma_config_entry_first(entries, workspace, j, 0);
    }
    if undeclared(entries, workspace) {
        lemma_config_entry_none(entries, workspace, 0);
    }
}

/// How a workspace's default command resolves: a runtime override that
/// is not blank wins; without one, the command of the first entry
/// declaring the workspace, when it is not blank; otherwise none. The
/// result is never blank.
pub proof fn lemma_command_resolution(
    meta: Option<WorkspaceMetadataView>,
    entries: Seq<WorkspaceEntry>,
    workspace: Seq<char>,
)
    ensures
        meta is Some && meta.unwrap().default_command is Some && !is_blank(
            meta.unwrap().default_command.unwrap()@,
        ) ==> resolved_command(meta, entries, workspace) == meta.unwrap().default_command,
        forall|j: int|
            #![trigger first_declaring(entries, workspace, j)]
            !(meta matches Some(m) && m.default_command matches Some(c) && !is_blank(c@))
                && first_declaring(entries, workspace, j) ==> resolved_command(meta, entries, workspace)
                == (if entries[j].default_command matches Some(c) && !is_blank(c@) {
                entries[j].default_command
            } else {
                None
            }),
        !(meta matches Some(m) && m.default_command matches Some(c) && !is_blank(c@)) && undeclared(
            entries,
            workspace,
        ) ==> resolved_command(meta, entries, workspace) is None,
        resolved_command(meta, entries, workspace) matches Some(c) ==> !is_blank(c@),
{
    lemma_config_entry_for(entries, workspace);
}

/// How a workspace's default directory resolves: a runtime override
/// wins; without one, the directory of the first entry declaring the
/// workspace; otherwise none.
pub proof fn lemma_cwd_resolution(
    meta: Option<WorkspaceMetadataView>,
    entries: Seq<WorkspaceEntry>,
    workspace: Seq<char>,
)
    ensures
        meta is Some && meta.unwrap().cwd is Some ==> resolved_cwd(meta, entries, workspace)
            == meta.unwrap().cwd,
        forall|j: int|
            #![trigger first_declaring(entries, workspace, j)]
            !(meta matches Some(m) && m.cwd is Some) && first_declaring(entries, workspace, j)
                ==> resolved_cwd(meta, entries, workspace) == entries[j].cwd,
        !(meta matches Some(m) && m.cwd is Some) && undeclared(entries, workspace) ==> resolved_cwd(
            meta,
            entries,
            workspace,
        ) is None,
{
    lemma_config_entry_for(entries, workspace);
}

/// The configuration entry for `workspace`: the first whose name is not
/// blank and equals it.
pub fn find_config_entry<'a>(config_entries: &'a [WorkspaceEntry], workspace: &str) -> (r: Option<
    &'a WorkspaceEntry,
>)
    ensures
        unref(r) == config_entry_for(config_entries@, workspace@),
{
    let mut i: usize = 0;
    while i < config_entries.len()
        invariant
            i <= config_entries@.len(),
            config_entry_for(config_entries@, workspace@) == config_entry_from(
                config_entries@,
                workspace@,
                i as int,
            ),
        decreases config_entries@.len() - i,
    {
        let e = &config_entries[i];
        if !str_is_blank(e.name.as_str()) && str_eq(e.name.as_str(), workspace) {
            return Some(e);
        }
        i = i + 1;
    }
    None
}

/// `c`, unless it is white space only.
fn without_blank(c: Option<String>) -> (r: Option<String>)
    ensures
        r == non_blank(c),
{
    match c {
        Some(s) => if str_is_blank(s.as_str()) {
            None
        } else {
            Some(s)
        },
        None => None,
    }
}

/// Resolve the effective (cwd, default_command) for `workspace`.
///
/// Priority, per field: runtime `metadata` override > `config_entries`
/// (first match wins) > unset. Whitespace-only commands count as unset.
pub fn resolve_workspace_defaults_impl(
    metadata: Option<&WorkspaceMetadata>,
    config_entries: &[WorkspaceEntry],
    workspace: &str,
) -> (r: (Option<String>, Option<String>))
    ensures
        r.0 == resolved_cwd(opt_meta_view(unref(metadata)), config_entries@, workspace@),
        r.1 == resolved_command(opt_meta_view(unref(metadata)), config_entries@, workspace@),
{
    let from_config = find_config_entry(config_entries, workspace);
    let meta_cwd = match metadata {
        Some(m) => clone_opt(&m.cwd),
        None => None,
    };
    let cwd = if meta_cwd.is_some() {
        meta_cwd
    } else {
        match from_config {
            Some(e) => clone_opt(&e.cwd),
            None => None,
        }
    };
    let meta_command = match metadata {
        Some(m) => without_blank(clone_opt(&m.default_command)),
        None => None,
    };
    let command = if meta_command.is_some() {
        meta_command
    } else {
        match from_config {
            Some(e) => without_blank(clone_opt(&e.default_command)),
            None => None,
        }
    };
    (cwd, command)
}

/// Insert the workspace default cwd into the spawn cwd priority chain:
/// explicit/inherited `cwd` wins; the workspace default only fills a `None`.
pub fn apply_workspace_default_cwd(cwd: Option<String>, workspace_default: Option<String>) -> (r:
    Option<String>)
    ensures
        r == (if cwd is Some {
            cwd
        } else {
            workspace_default
        }),
{
    match cwd {
        Some(c) => Some(c),
        None => workspace_default,
    }
}

/// The workspace's profile, from runtime overrides only.
pub open spec fn runtime_profile(meta: Option<WorkspaceMetadataView>) -> Option<SpawnCommandView> {
    match meta {
        Some(m) => m.profile,
        None => None,
    }
}

/// The workspace's default launch profile, from runtime metadata only.
pub fn resolve_workspace_profile_impl(metadata: Option<&WorkspaceMetadata>) -> (r: Option<
    SpawnCommand,
>)
    ensures
        opt_spawn_view(r) == runtime_profile(opt_meta_view(unref(metadata))),
{
    match metadata {
        Some(m) => match &m.profile {
            Some(p) => Some(p.clone()),
            None => None,
        },
        None => None,
    }
}

/// What the subtitle shows of a workspace's profile: the bare domain
/// name when it names a domain, else the label it was chosen under,
/// else its program argv joined by spaces; nothing without a profile.
pub open spec fn profile_display(meta: Option<WorkspaceMetadataView>) -> Option<Seq<char>> {
    match meta {
        None => None,
        Some(m) => match m.profile {
            None => None,
            Some(p) => match p.domain {
                SpawnTabDomain::DomainName(n) => Some(n@),
                _ => match m.profile_label {
                    Some(l) => Some(l@),
                    None => match p.args {
                        Some(a) => if a.len() > 0 {
                            Some(join_spaces(views(a)))
                        } else {
                            None
                        },
                        None => None,
                    },
                },
            },
        },
    }
}

/// The text the sidebar shows for a workspace's launch profile, if it
/// has one.
pub fn workspace_profile_display(metadata: Option<&WorkspaceMetadata>) -> (r: Option<String>)
    ensures
        opt_view(r) == profile_display(opt_meta_view(unref(metadata))),
{
    match metadata {
        None => None,
        Some(m) => match &m.profile {
            None => None,
            Some(p) => match &p.domain {
                SpawnTabDomain::DomainName(n) => Some(n.clone()),
                _ => match &m.profile_label {
                    Some(l) => Some(l.clone()),
                    None => match &p.args {
                        Some(a) => if a.len() > 0 {
                            Some(join_with_spaces(a.as_slice()))
                        } else {
                            None
                        },
                        None => None,
                    },
                },
            },
        },
    }
}

/// What a plain spawn should run once the workspace's default profile
/// is taken into account.
#[derive(Debug)]
pub struct ProfileOverlay {
    /// Program argv: the explicit spawn args if given, else the
    /// profile's args. `None` = default shell.
    pub args: Option<Vec<String>>,
    /// Explicit-level cwd: the spawn's cwd wins over the profile's.
    pub cwd: Option<String>,
    /// Environment variables contributed by the profile.
    pub env: StrMap<String>,
    /// The profile's domain, when it names a specific domain.
    /// `None` = keep whatever domain the spawn request asked for.
    pub domain: Option<SpawnTabDomain>,
    /// Whether the workspace's default command should be injected
    /// into the spawned program. True unless the spawn request
    /// carried explicit args.
    pub inject_default_command: bool,
}

/// The value of an overlay.
pub struct ProfileOverlayView {
    pub args: Option<Seq<String>>,
    pub cwd: Option<String>,
    pub env: Map<Seq<char>, String>,
    pub domain: Option<SpawnTabDomain>,
    pub inject_default_command: bool,
}

impl View for ProfileOverlay {
    type V = ProfileOverlayView;

    open spec fn view(&self) -> ProfileOverlayView {
        ProfileOverlayView {
            args: opt_seq(self.args),
            cwd: self.cwd,
            env: self.env@,
            domain: self.domain,
            inject_default_command: self.inject_default_command,
        }
    }
}

/// A domain choice that names a concrete domain, as opposed to the
/// defaults a profile inherits.
pub open spec fn names_domain(d: SpawnTabDomain) -> bool {
    d is DomainName || d is DomainId
}

/// The overlay of `profile` onto a spawn request with the given args and
/// cwd. Explicit args ignore the profile entirely and turn injection
/// off; otherwise the profile supplies args, env, a named domain and a
/// cwd that the spawn's own cwd beats, and injection stays on.
pub open spec fn profile_overlay(
    spawn_args: Option<Seq<String>>,
    spawn_cwd: Option<String>,
    profile: Option<SpawnCommandView>,
) -> ProfileOverlayView {
    match spawn_args {
        Some(a) => ProfileOverlayView {
            args: Some(a),
            cwd: spawn_cwd,
            env: Map::empty(),
            domain: None,
            inject_default_command: false,
        },
        None => match profile {
            Some(p) => ProfileOverlayView {
                args: p.args,
                cwd: if spawn_cwd is Some {
                    spawn_cwd
                } else {
                    p.cwd
                },
                env: p.env,
                domain: if names_domain(p.domain) {
                    Some(p.domain)
                } else {
                    None
                },
                inject_default_command: true,
            },
            None => ProfileOverlayView {
                args: None,
                cwd: spawn_cwd,
                env: Map::empty(),
                domain: None,
                inject_default_command: true,
            },
        },
    }
}

/// A spawn with explicit args ignores the profile entirely: it runs
/// those args in the spawn's own directory, takes no environment and no
/// domain, and gets no command typed into it; what the profile holds
/// makes no difference.
pub proof fn lemma_explicit_args_ignore_profile(
    args: Seq<String>,
    cwd: Option<String>,
    profile: Option<SpawnCommandView>,
    other: Option<SpawnCommandView>,
)
    ensures
        profile_overlay(Some(args), cwd, profile).args == Some(args),
        profile_overlay(Some(args), cwd, profile).cwd == cwd,
        profile_overlay(Some(args), cwd, profile).env == Map::<Seq<char>, String>::empty(),
        profile_overlay(Some(args), cwd, profile).domain is None,
        !profile_overlay(Some(args), cwd, profile).inject_default_command,
        profile_overlay(Some(args), cwd, profile) == profile_overlay(Some(args), cwd, other),
{
}

/// A spawn without explicit args runs the profile's program with the
/// profile's environment, in the spawn's own directory when it has one
/// and the profile's otherwise, in the profile's domain only when that
/// names a specific domain; the default command is typed into it.
/// Without a profile it runs the default shell in its own directory,
/// with nothing added.
pub proof fn lemma_plain_spawn_takes_profile(cwd: Option<String>, profile: Option<SpawnCommandView>)
    ensures
        profile_overlay(None, cwd, profile).inject_default_command,
        profile is Some ==> profile_overlay(None, cwd, profile).args == profile.unwrap().args
            && profile_overlay(None, cwd, profile).env == profile.unwrap().env,
        profile is Some && cwd is Some ==> profile_overlay(None, cwd, profile).cwd == cwd,
        profile is Some && cwd is None ==> profile_overlay(None, cwd, profile).cwd
            == profile.unwrap().cwd,
        profile is Some && (profile.unwrap().domain is DomainName || profile.unwrap().domain is DomainId)
            ==> profile_overlay(None, cwd, profile).domain == Some(profile.unwrap().domain),
        profile is Some && (profile.unwrap().domain is DefaultDomain
            || profile.unwrap().domain is CurrentPaneDomain) ==> profile_overlay(
            None,
            cwd,
            profile,
        ).domain is None,
        profile is None ==> profile_overlay(None, cwd, profile).args is None
            && profile_overlay(None, cwd, profile).cwd == cwd && profile_overlay(None, cwd, profile).env
            == Map::<Seq<char>, String>::empty() && profile_overlay(None, cwd, profile).domain is None,
{
}

/// The elements of an optional slice.
pub open spec fn opt_slice<T>(o: Option<&[T]>) -> Option<Seq<T>> {
    match o {
        Some(s) => Some(s@),
        None => None,
    }
}

/// Overlay the workspace's default profile onto a spawn request.
/// A spawn with explicit `args` is a specific program the user asked
/// for, so the profile is ignored entirely.
pub fn apply_workspace_profile(
    spawn_args: Option<&[String]>,
    spawn_cwd: Option<String>,
    profile: Option<&SpawnCommand>,
) -> (r: ProfileOverlay)
    ensures
        r@ == profile_overlay(opt_slice(spawn_args), spawn_cwd, opt_spawn_view(unref(profile))),
{
    if let Some(args) = spawn_args {
        let r = ProfileOverlay {
            args: Some(clone_strings(args)),
            cwd: spawn_cwd,
            env: StrMap::new(),
            domain: None,
            inject_default_command: false,
        };
        return r;
    }
    match profile {
        Some(profile) => {
            let cwd = match spawn_cwd {
                Some(c) => Some(c),
                None => clone_opt(&profile.cwd),
            };
            let domain = match &profile.domain {
                SpawnTabDomain::DomainName(_) | SpawnTabDomain::DomainId(_) => Some(
                    clone_domain(&profile.domain),
                ),
                _ => None,
            };
            ProfileOverlay {
                args: clone_opt_strings(&profile.args),
                cwd,
                env: profile.set_environment_variables.copy(),
                domain,
                inject_default_command: true,
            }
        },
        None => ProfileOverlay {
            args: None,
            cwd: spawn_cwd,
            env: StrMap::new(),
            domain: None,
            inject_default_command: true,
        },
    }
}

} // verus!
