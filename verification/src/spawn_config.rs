//! The configuration values that the sidebar reads: declared workspaces
//! and launch profiles.

use crate::strmap::StrMap;
use crate::text::{clone_opt, clone_opt_strings, opt_seq};
use vstd::prelude::*;

verus! {

/// A workspace declared in the configuration's `workspaces` section.
#[derive(Clone, Debug, PartialEq, Eq)]
pub struct WorkspaceEntry {
    /// Workspace name; must match the mux workspace name.
    pub name: String,
    /// Default working directory for new tabs in this workspace.
    pub cwd: Option<String>,
    /// Text typed into the shell of newly spawned tabs.
    pub default_command: Option<String>,
}

/// Which domain a spawned tab runs in.
#[derive(Clone, Debug, PartialEq, Eq)]
pub enum SpawnTabDomain {
    /// The default domain.
    DefaultDomain,
    /// The domain of the current pane.
    CurrentPaneDomain,
    /// The domain with this name.
    DomainName(String),
    /// The domain with this id.
    DomainId(usize),
}

impl Default for SpawnTabDomain {
    /// "No opinion": stay in the current pane's domain.
    fn default() -> (r: Self)
        ensures
            r == SpawnTabDomain::CurrentPaneDomain,
    {
        SpawnTabDomain::CurrentPaneDomain
    }
}

/// A copy of a domain choice.
pub fn clone_domain(d: &SpawnTabDomain) -> (r: SpawnTabDomain)
    ensures
        r == *d,
{
    match d {
        SpawnTabDomain::DefaultDomain => SpawnTabDomain::DefaultDomain,
        SpawnTabDomain::CurrentPaneDomain => SpawnTabDomain::CurrentPaneDomain,
        SpawnTabDomain::DomainName(n) => SpawnTabDomain::DomainName(n.clone()),
        SpawnTabDomain::DomainId(id) => SpawnTabDomain::DomainId(*id),
    }
}

/// A launch profile: what to run for a new tab, and where.
#[derive(Debug, PartialEq, Eq)]
pub struct SpawnCommand {
    /// Display label.
    pub label: Option<String>,
    /// Program argv; `None` is the default shell.
    pub args: Option<Vec<String>>,
    /// Working directory.
    pub cwd: Option<String>,
    /// Environment variables to set.
    pub set_environment_variables: StrMap<String>,
    /// Domain to spawn into.
    pub domain: SpawnTabDomain,
}

/// The value of a launch profile.
pub struct SpawnCommandView {
    pub label: Option<String>,
    pub args: Option<Seq<String>>,
    pub cwd: Option<String>,
    pub env: Map<Seq<char>, String>,
    pub domain: SpawnTabDomain,
}

impl View for SpawnCommand {
    type V = SpawnCommandView;

    open spec fn view(&self) -> SpawnCommandView {
        SpawnCommandView {
            label: self.label,
            args: opt_seq(self.args),
            cwd: self.cwd,
            env: self.set_environment_variables@,
            domain: self.domain,
        }
    }
}

impl Clone for SpawnCommand {
    /// The same profile.
    fn clone(&self) -> (r: Self)
        ensures
            r@ == self@,
    {
        SpawnCommand {
            label: clone_opt(&self.label),
            args: clone_opt_strings(&self.args),
            cwd: clone_opt(&self.cwd),
            set_environment_variables: self.set_environment_variables.copy(),
            domain: clone_domain(&self.domain),
        }
    }
}

impl Default for SpawnCommand {
    /// No label, default shell, no cwd, no variables, current domain.
    fn default() -> (r: Self)
        ensures
            r@ == (SpawnCommandView {
                label: None,
                args: None,
                cwd: None,
                env: Map::empty(),
                domain: SpawnTabDomain::CurrentPaneDomain,
            }),
    {
        SpawnCommand {
            label: None,
            args: None,
            cwd: None,
            set_environment_variables: StrMap::new(),
            domain: SpawnTabDomain::CurrentPaneDomain,
        }
    }
}

/// The view of an optional profile.
pub open spec fn opt_spawn_view(o: Option<SpawnCommand>) -> Option<SpawnCommandView> {
    match o {
        Some(c) => Some(c@),
        None => None,
    }
}

} // verus!
