use sideterm_sidebar::sidebar::SidebarOverrides;
use sideterm_sidebar::sidebar_persist::{decode, encode, STATE_VERSION};
use sideterm_sidebar::spawn_config::{SpawnCommand, SpawnTabDomain};
use sideterm_sidebar::strmap::{NameSet, StrMap};
use sideterm_sidebar::workspace_defaults::WorkspaceMetadata;

#[test]
fn encode_decode_roundtrip_keeps_order_hidden_and_metadata() {
    let mut metadata = StrMap::new();
    metadata.insert(
        "api".to_string(),
        WorkspaceMetadata {
            cwd: Some("/code/api".to_string()),
            default_command: Some("npm run dev".to_string()),
            ..WorkspaceMetadata::default()
        },
    );
    let mut profile = SpawnCommand::default();
    profile.args = Some(vec!["pwsh".to_string(), "-NoLogo".to_string()]);
    profile.domain = SpawnTabDomain::DomainName("WSL:Ubuntu".to_string());
    metadata.insert(
        "wsl".to_string(),
        WorkspaceMetadata {
            profile: Some(profile),
            profile_label: Some("domain `WSL:Ubuntu`".to_string()),
            ..WorkspaceMetadata::default()
        },
    );
    // Unset metadata must not be written.
    metadata.insert("blank".to_string(), WorkspaceMetadata::default());

    let overrides = SidebarOverrides {
        order: vec!["wsl".to_string(), "api".to_string(), "scratch".to_string()],
        hidden: NameSet::from_names(vec!["old".to_string(), "ancient".to_string()]),
        remembered: vec!["scratch".to_string()],
    };

    let state = encode(&overrides, &metadata);
    assert_eq!(state.version, STATE_VERSION);
    assert_eq!(state.hidden, vec!["ancient".to_string(), "old".to_string()]);
    assert_eq!(state.metadata.len(), 2);
    let (loaded_overrides, loaded_metadata) = decode(state);

    assert_eq!(loaded_overrides, overrides);
    assert_eq!(loaded_metadata.len(), 2);
    assert_eq!(loaded_metadata.get("api").unwrap().cwd, Some("/code/api".to_string()));
    assert_eq!(
        loaded_metadata.get("api").unwrap().default_command.as_deref(),
        Some("npm run dev")
    );
    assert_eq!(
        loaded_metadata.get("wsl").unwrap().profile.as_ref().map(|p| &p.domain),
        Some(&SpawnTabDomain::DomainName("WSL:Ubuntu".to_string()))
    );
    assert_eq!(
        loaded_metadata.get("wsl").unwrap().profile.as_ref().and_then(|p| p.args.clone()),
        Some(vec!["pwsh".to_string(), "-NoLogo".to_string()])
    );
    assert!(!loaded_metadata.contains_key("blank"));
}

#[test]
fn empty_state_encodes_and_decodes_to_empty() {
    let state = encode(&SidebarOverrides::default(), &StrMap::new());
    assert!(state.order.is_empty() && state.hidden.is_empty() && state.remembered.is_empty());
    let (overrides, metadata) = decode(state);
    assert_eq!(overrides, SidebarOverrides::default());
    assert!(metadata.is_empty());
}

#[test]
fn name_sets_are_sorted_and_compare_by_contents() {
    let a = NameSet::from_names(vec!["b".into(), "a".into(), "b".into(), "\u{e9}".into(), "Z".into()]);
    let b = NameSet::from_names(vec!["Z".into(), "\u{e9}".into(), "a".into(), "b".into()]);
    assert_eq!(a, b);
    assert_eq!(a.len(), 4);
    assert_eq!(a.to_vec(), vec!["Z", "a", "b", "\u{e9}"]);
    assert!(a.contains("\u{e9}") && !a.contains("e"));
}

#[test]
fn string_map_insert_get_and_replace() {
    let mut m: StrMap<u32> = StrMap::new();
    assert!(m.is_empty());
    m.insert("b".into(), 2);
    m.insert("a".into(), 1);
    m.insert("b".into(), 3);
    assert_eq!(m.len(), 2);
    assert_eq!(m.get("b"), Some(&3));
    assert_eq!(m.get("a"), Some(&1));
    assert_eq!(m.get("c"), None);
    assert_eq!(m.key_at(0), "a");
    assert_eq!(*m.value_at(1), 3);
    let mut n: StrMap<u32> = StrMap::new();
    n.insert("a".into(), 1);
    n.insert("b".into(), 3);
    assert_eq!(m, n);
}
