use sideterm_sidebar::spawn_config::{SpawnCommand, SpawnTabDomain, WorkspaceEntry};
use sideterm_sidebar::workspace_defaults::{
    apply_workspace_default_cwd, apply_workspace_profile, resolve_workspace_defaults_impl,
    resolve_workspace_profile_impl, workspace_profile_display, WorkspaceMetadata,
};

fn config_entries() -> Vec<WorkspaceEntry> {
    vec![
        WorkspaceEntry {
            name: "api".to_string(),
            cwd: Some("D:/code/api".to_string()),
            default_command: Some("npm run dev".to_string()),
        },
        WorkspaceEntry {
            name: "blank-cmd".to_string(),
            cwd: None,
            default_command: Some("   ".to_string()),
        },
    ]
}

#[test]
fn falls_back_to_config() {
    let (cwd, cmd) = resolve_workspace_defaults_impl(None, &config_entries(), "api");
    assert_eq!(cwd, Some("D:/code/api".to_string()));
    assert_eq!(cmd, Some("npm run dev".to_string()));
}

#[test]
fn runtime_override_beats_config_per_field() {
    // Only cwd overridden: command must still come from config.
    let meta = WorkspaceMetadata {
        cwd: Some("E:/override".to_string()),
        ..WorkspaceMetadata::default()
    };
    let (cwd, cmd) = resolve_workspace_defaults_impl(Some(&meta), &config_entries(), "api");
    assert_eq!(cwd, Some("E:/override".to_string()));
    assert_eq!(cmd, Some("npm run dev".to_string()));

    // Both overridden.
    let meta = WorkspaceMetadata {
        cwd: Some("E:/override".to_string()),
        default_command: Some("make".to_string()),
        ..WorkspaceMetadata::default()
    };
    let (cwd, cmd) = resolve_workspace_defaults_impl(Some(&meta), &config_entries(), "api");
    assert_eq!(cwd, Some("E:/override".to_string()));
    assert_eq!(cmd, Some("make".to_string()));
}

#[test]
fn whitespace_only_command_is_unset() {
    let (cwd, cmd) = resolve_workspace_defaults_impl(None, &config_entries(), "blank-cmd");
    assert_eq!(cwd, None);
    assert_eq!(cmd, None);
}

#[test]
fn unknown_workspace_has_no_defaults() {
    assert_eq!(
        resolve_workspace_defaults_impl(None, &config_entries(), "nope"),
        (None, None)
    );
}

#[test]
fn duplicate_config_entries_resolve_first_match_wins() {
    let mut entries = config_entries();
    entries.push(WorkspaceEntry {
        name: "api".to_string(),
        cwd: Some("Z:/later".to_string()),
        default_command: None,
    });
    let (cwd, _) = resolve_workspace_defaults_impl(None, &entries, "api");
    assert_eq!(cwd, Some("D:/code/api".to_string()));
}

#[test]
fn workspace_default_cwd_is_only_a_fallback() {
    // Explicit or inherited cwd wins over the workspace default.
    assert_eq!(
        apply_workspace_default_cwd(
            Some("C:/explicit".to_string()),
            Some("D:/workspace-default".to_string()),
        ),
        Some("C:/explicit".to_string())
    );
    // Workspace default kicks in when nothing earlier produced a cwd.
    assert_eq!(
        apply_workspace_default_cwd(None, Some("D:/workspace-default".to_string())),
        Some("D:/workspace-default".to_string())
    );
    // No workspace default: stays None so the system default applies downstream.
    assert_eq!(apply_workspace_default_cwd(None, None), None);
}

fn profile(args: Option<Vec<String>>, cwd: Option<String>) -> SpawnCommand {
    SpawnCommand {
        args,
        cwd,
        ..SpawnCommand::default()
    }
}

#[test]
fn profile_comes_from_runtime_metadata_only() {
    let meta = WorkspaceMetadata {
        profile: Some(profile(Some(vec!["pwsh".to_string()]), None)),
        ..WorkspaceMetadata::default()
    };
    assert_eq!(
        resolve_workspace_profile_impl(Some(&meta)),
        Some(profile(Some(vec!["pwsh".to_string()]), None))
    );
    assert_eq!(resolve_workspace_profile_impl(None), None);
    assert_eq!(
        resolve_workspace_profile_impl(Some(&WorkspaceMetadata::default())),
        None
    );
}

#[test]
fn explicit_spawn_args_ignore_the_profile() {
    let explicit = vec!["vim".to_string()];
    let overlay = apply_workspace_profile(
        Some(&explicit),
        None,
        Some(&profile(Some(vec!["pwsh".to_string()]), None)),
    );
    assert_eq!(overlay.args, Some(explicit));
    assert!(!overlay.inject_default_command);
}

#[test]
fn profile_supplies_args_cwd_and_env_for_plain_spawns() {
    let mut prof = profile(
        Some(vec!["pwsh".to_string(), "-NoLogo".to_string()]),
        Some("D:/profile-cwd".to_string()),
    );
    prof.set_environment_variables
        .insert("FOO".to_string(), "bar".to_string());

    let overlay = apply_workspace_profile(None, None, Some(&prof));
    assert_eq!(
        overlay.args,
        Some(vec!["pwsh".to_string(), "-NoLogo".to_string()])
    );
    assert_eq!(overlay.cwd, Some("D:/profile-cwd".to_string()));
    assert_eq!(overlay.env.get("FOO"), Some(&"bar".to_string()));
    // The profile's program is assumed to be a shell: the
    // workspace's default command is still injected into it.
    assert!(overlay.inject_default_command);
}

#[test]
fn explicit_spawn_cwd_beats_profile_cwd() {
    let overlay = apply_workspace_profile(
        None,
        Some("C:/explicit".to_string()),
        Some(&profile(
            Some(vec!["pwsh".to_string()]),
            Some("D:/profile-cwd".to_string()),
        )),
    );
    assert_eq!(overlay.cwd, Some("C:/explicit".to_string()));
}

#[test]
fn profile_with_args_still_injects_default_command() {
    // A profile with args (e.g. PowerShell 7) picks the shell;
    // the workspace's default command is typed into that shell.
    let overlay = apply_workspace_profile(
        None,
        None,
        Some(&profile(
            Some(vec!["pwsh".to_string()]),
            Some("D:/profile-cwd".to_string()),
        )),
    );
    assert_eq!(overlay.args, Some(vec!["pwsh".to_string()]));
    assert_eq!(overlay.cwd, Some("D:/profile-cwd".to_string()));
    assert!(overlay.inject_default_command);
}

#[test]
fn no_profile_is_a_passthrough() {
    let overlay = apply_workspace_profile(None, None, None);
    assert_eq!(overlay.args, None);
    assert_eq!(overlay.cwd, None);
    assert!(overlay.env.is_empty());
    assert_eq!(overlay.domain, None);
    assert!(overlay.inject_default_command);
}

#[test]
fn profile_with_named_domain_overrides_the_spawn_domain() {
    let mut prof = profile(None, None);
    prof.domain = SpawnTabDomain::DomainName("WSL:Ubuntu".to_string());
    let overlay = apply_workspace_profile(None, None, Some(&prof));
    assert_eq!(
        overlay.domain,
        Some(SpawnTabDomain::DomainName("WSL:Ubuntu".to_string()))
    );
    // No args: the domain's default shell runs, so the workspace's
    // default command is still injected.
    assert!(overlay.inject_default_command);
}

#[test]
fn profile_with_unspecified_domain_keeps_the_spawn_domain() {
    // SpawnCommand::default().domain is CurrentPaneDomain: that is
    // "no opinion", not a choice to pin the pane's domain.
    let overlay = apply_workspace_profile(
        None,
        None,
        Some(&profile(Some(vec!["pwsh".to_string()]), None)),
    );
    assert_eq!(overlay.domain, None);
}

#[test]
fn explicit_spawn_args_ignore_the_profile_domain() {
    let explicit = vec!["vim".to_string()];
    let mut prof = profile(None, None);
    prof.domain = SpawnTabDomain::DomainName("WSL:Ubuntu".to_string());
    let overlay = apply_workspace_profile(Some(&explicit), None, Some(&prof));
    assert_eq!(overlay.args, Some(explicit));
    assert_eq!(overlay.domain, None);
}

#[test]
fn domain_id_profile_overrides_and_default_domain_does_not() {
    let mut prof = profile(None, None);
    prof.domain = SpawnTabDomain::DomainId(4);
    let overlay = apply_workspace_profile(None, None, Some(&prof));
    assert_eq!(overlay.domain, Some(SpawnTabDomain::DomainId(4)));
    prof.domain = SpawnTabDomain::DefaultDomain;
    let overlay = apply_workspace_profile(None, None, Some(&prof));
    assert_eq!(overlay.domain, None);
}

#[test]
fn unicode_blank_runtime_command_counts_as_unset() {
    let meta = WorkspaceMetadata {
        default_command: Some("\t \u{3000}".to_string()),
        ..WorkspaceMetadata::default()
    };
    let (_, cmd) = resolve_workspace_defaults_impl(Some(&meta), &config_entries(), "api");
    assert_eq!(cmd, Some("npm run dev".to_string()));
    let (_, cmd) = resolve_workspace_defaults_impl(Some(&meta), &config_entries(), "blank-cmd");
    assert_eq!(cmd, None);
}

#[test]
fn blank_config_name_never_matches() {
    let entries = vec![WorkspaceEntry {
        name: " ".to_string(),
        cwd: Some("/x".to_string()),
        default_command: None,
    }];
    assert_eq!(resolve_workspace_defaults_impl(None, &entries, " "), (None, None));
}

#[test]
fn profile_display_prefers_domain_then_label_then_args() {
    let mut prof = profile(Some(vec!["pwsh".to_string(), "-NoLogo".to_string()]), None);
    let meta = WorkspaceMetadata { profile: Some(prof.clone()), ..WorkspaceMetadata::default() };
    assert_eq!(workspace_profile_display(Some(&meta)), Some("pwsh -NoLogo".to_string()));
    let meta = WorkspaceMetadata {
        profile: Some(prof.clone()),
        profile_label: Some("PS".to_string()),
        ..WorkspaceMetadata::default()
    };
    assert_eq!(workspace_profile_display(Some(&meta)), Some("PS".to_string()));
    prof.domain = SpawnTabDomain::DomainName("WSL".to_string());
    let meta = WorkspaceMetadata {
        profile: Some(prof),
        profile_label: Some("PS".to_string()),
        ..WorkspaceMetadata::default()
    };
    assert_eq!(workspace_profile_display(Some(&meta)), Some("WSL".to_string()));
    assert_eq!(workspace_profile_display(None), None);
    assert_eq!(workspace_profile_display(Some(&WorkspaceMetadata::default())), None);
}

#[test]
fn whitespace_only_runtime_command_leaves_the_configured_one() {
    let meta = WorkspaceMetadata {
        default_command: Some("   ".to_string()),
        ..WorkspaceMetadata::default()
    };
    let (cwd, cmd) = resolve_workspace_defaults_impl(Some(&meta), &config_entries(), "api");
    assert_eq!(cwd, Some("D:/code/api".to_string()));
    assert_eq!(cmd, Some("npm run dev".to_string()));
}
