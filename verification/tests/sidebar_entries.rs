use sideterm_sidebar::sidebar::{compute_sidebar_entries, move_in_order, SidebarEntry, SidebarOverrides};
use sideterm_sidebar::spawn_config::{SpawnCommand, SpawnTabDomain, WorkspaceEntry};
use sideterm_sidebar::strmap::{NameSet, StrMap};
use sideterm_sidebar::workspace_defaults::WorkspaceMetadata;

fn config_entries() -> Vec<WorkspaceEntry> {
    vec![
        WorkspaceEntry {
            name: "api".to_string(),
            cwd: Some("D:/code/api".to_string()),
            default_command: Some("npm run dev".to_string()),
        },
        WorkspaceEntry {
            name: "docs".to_string(),
            cwd: None,
            default_command: None,
        },
    ]
}

fn names(entries: &[SidebarEntry]) -> Vec<&str> {
    entries.iter().map(|e| e.name.as_str()).collect()
}

#[test]
fn merges_config_and_live() {
    let live = vec![("api".to_string(), 3usize), ("scratch".to_string(), 1usize)];
    let entries = compute_sidebar_entries(
        &config_entries(),
        &live,
        &StrMap::new(),
        &SidebarOverrides::default(),
    );
    // config order first, then live-only workspaces
    assert_eq!(names(&entries), vec!["api", "docs", "scratch"]);
    assert_eq!(entries[0].tab_count, Some(3));
    // configured but not open
    assert_eq!(entries[1].tab_count, None);
    // live but unconfigured: no subtitle
    assert_eq!(entries[2].subtitle_lines, Vec::<String>::new());
}

#[test]
fn subtitle_shows_cwd_and_command_together() {
    let entries =
        compute_sidebar_entries(&config_entries(), &[], &StrMap::new(), &SidebarOverrides::default());
    assert_eq!(
        entries[0].subtitle_lines,
        vec!["\u{25b8} api".to_string(), "$ npm run dev".to_string()]
    );
    assert_eq!(entries[1].subtitle_lines, Vec::<String>::new());
}

#[test]
fn subtitle_shows_command_without_cwd() {
    let config = vec![WorkspaceEntry {
        name: "srv".to_string(),
        cwd: None,
        default_command: Some("npm run dev".to_string()),
    }];
    let entries = compute_sidebar_entries(&config, &[], &StrMap::new(), &SidebarOverrides::default());
    assert_eq!(entries[0].subtitle_lines, vec!["$ npm run dev".to_string()]);
}

#[test]
fn subtitle_uses_runtime_override() {
    let mut metadata = StrMap::new();
    metadata.insert(
        "api".to_string(),
        WorkspaceMetadata {
            cwd: Some("E:/elsewhere".to_string()),
            ..WorkspaceMetadata::default()
        },
    );
    let entries =
        compute_sidebar_entries(&config_entries(), &[], &metadata, &SidebarOverrides::default());
    assert_eq!(
        entries[0].subtitle_lines,
        vec!["\u{25b8} elsewhere".to_string(), "$ npm run dev".to_string()]
    );
}

fn meta_with_profile(profile: SpawnCommand, label: Option<&str>) -> StrMap<WorkspaceMetadata> {
    let mut m = StrMap::new();
    m.insert(
        "api".to_string(),
        WorkspaceMetadata {
            profile: Some(profile),
            profile_label: label.map(|s| s.to_string()),
            ..WorkspaceMetadata::default()
        },
    );
    m
}

#[test]
fn subtitle_profile_uses_captured_label() {
    let profile = SpawnCommand {
        args: Some(vec!["pwsh".to_string(), "-NoLogo".to_string()]),
        ..SpawnCommand::default()
    };
    let entries = compute_sidebar_entries(
        &config_entries(),
        &[],
        &meta_with_profile(profile, Some("PowerShell 7")),
        &SidebarOverrides::default(),
    );
    assert_eq!(
        entries[0].subtitle_lines,
        vec![
            "\u{25b8} api".to_string(),
            "$ npm run dev".to_string(),
            "\u{25c6} PowerShell 7".to_string()
        ]
    );
}

#[test]
fn subtitle_domain_profile_shows_bare_domain_name() {
    let profile = SpawnCommand {
        domain: SpawnTabDomain::DomainName("WSL:Ubuntu".to_string()),
        ..SpawnCommand::default()
    };
    // The flyout label would be "domain `WSL:Ubuntu`"; the subtitle
    // must show just the domain name.
    let entries = compute_sidebar_entries(
        &config_entries(),
        &[],
        &meta_with_profile(profile, Some("domain `WSL:Ubuntu`")),
        &SidebarOverrides::default(),
    );
    assert_eq!(entries[0].subtitle_lines[2], "\u{25c6} WSL:Ubuntu".to_string());
}

#[test]
fn subtitle_profile_falls_back_to_args() {
    let profile = SpawnCommand {
        args: Some(vec!["pwsh".to_string()]),
        ..SpawnCommand::default()
    };
    let entries = compute_sidebar_entries(
        &config_entries(),
        &[],
        &meta_with_profile(profile, None),
        &SidebarOverrides::default(),
    );
    assert_eq!(entries[0].subtitle_lines[2], "\u{25c6} pwsh".to_string());
}

#[test]
fn overrides_reorder_and_hide() {
    let live = vec![("api".to_string(), 1usize), ("scratch".to_string(), 2usize)];
    let overrides = SidebarOverrides {
        order: vec!["scratch".to_string(), "docs".to_string()],
        hidden: NameSet::from_names(vec!["api".to_string()]),
        remembered: vec![],
    };
    let entries = compute_sidebar_entries(&config_entries(), &live, &StrMap::new(), &overrides);
    assert_eq!(names(&entries), vec!["scratch", "docs"]);
}

#[test]
fn move_in_order_swaps_adjacent() {
    let current: Vec<String> = vec!["a".into(), "b".into(), "c".into()];

    // cold start: order materializes from current display order
    let mut order = vec![];
    move_in_order(&current, &mut order, "b", -1);
    assert_eq!(order, vec!["b".to_string(), "a".to_string(), "c".to_string()]);

    // clamped at the top: no-op
    let mut order = vec!["b".to_string(), "a".to_string(), "c".to_string()];
    move_in_order(&current, &mut order, "b", -1);
    assert_eq!(order, vec!["b".to_string(), "a".to_string(), "c".to_string()]);

    // move down
    move_in_order(&current, &mut order, "b", 1);
    assert_eq!(order, vec!["a".to_string(), "b".to_string(), "c".to_string()]);
}

#[test]
fn blank_and_duplicate_config_names_are_listed_once() {
    let config = vec![
        WorkspaceEntry { name: "  ".to_string(), cwd: None, default_command: None },
        WorkspaceEntry { name: "api".to_string(), cwd: None, default_command: None },
        WorkspaceEntry {
            name: "api".to_string(),
            cwd: Some("/later".to_string()),
            default_command: None,
        },
    ];
    let live = vec![("api".to_string(), 2usize), ("api".to_string(), 7usize)];
    let entries = compute_sidebar_entries(&config, &live, &StrMap::new(), &SidebarOverrides::default());
    assert_eq!(names(&entries), vec!["api"]);
    // first live entry wins; first config entry (no cwd) wins
    assert_eq!(entries[0].tab_count, Some(2));
    assert_eq!(entries[0].subtitle_lines, Vec::<String>::new());
}

#[test]
fn order_names_missing_from_the_list_are_skipped() {
    let live = vec![("scratch".to_string(), 1usize)];
    let overrides = SidebarOverrides {
        order: vec!["gone".to_string(), "docs".to_string(), "docs".to_string()],
        hidden: NameSet::new(),
        remembered: vec![],
    };
    let entries = compute_sidebar_entries(&config_entries(), &live, &StrMap::new(), &overrides);
    assert_eq!(names(&entries), vec!["docs", "api", "scratch"]);
}

#[test]
fn move_then_back_restores_the_order() {
    let current: Vec<String> = vec!["a".into(), "b".into(), "c".into(), "d".into()];
    let mut order = vec!["c".to_string(), "a".to_string()];
    move_in_order(&current, &mut order, "a", 2);
    // materialized as c a b d, then a moved two down
    assert_eq!(order, vec!["c", "b", "d", "a"]);
    move_in_order(&current, &mut order, "a", -2);
    assert_eq!(order, vec!["c", "a", "b", "d"]);
}

#[test]
fn moving_an_unknown_name_only_materializes() {
    let current: Vec<String> = vec!["a".into(), "b".into()];
    let mut order = vec![];
    move_in_order(&current, &mut order, "zzz", 1);
    assert_eq!(order, vec!["a", "b"]);
}

#[test]
fn move_clamps_at_the_bottom() {
    let current: Vec<String> = vec!["a".into(), "b".into(), "c".into()];
    let mut order = vec![];
    move_in_order(&current, &mut order, "a", 10);
    assert_eq!(order, vec!["b", "c", "a"]);
}

#[test]
fn plain_cwd_without_separator_is_its_own_basename() {
    let config = vec![WorkspaceEntry {
        name: "w".to_string(),
        cwd: Some("project".to_string()),
        default_command: Some("   ".to_string()),
    }];
    let entries = compute_sidebar_entries(&config, &[], &StrMap::new(), &SidebarOverrides::default());
    assert_eq!(entries[0].subtitle_lines, vec!["\u{25b8} project".to_string()]);
}
