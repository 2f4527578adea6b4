use aliasmgr::model::{Alias, Config};

#[test]
fn enabled_non_global_alias_must_not_be_detailed() {
    let alias = Alias::new("cmd".into(), None, true, false);
    assert_eq!(
        alias,
        Alias {
            command: "cmd".into(),
            enabled: true,
            group: None,
            detailed: false,
            global: false,
        }
    );
}

#[test]
fn disabled_alias_must_be_detailed() {
    let alias = Alias::new("cmd".into(), None, false, false);
    assert_eq!(
        alias,
        Alias {
            command: "cmd".into(),
            enabled: false,
            group: None,
            detailed: true,
            global: false,
        }
    );
}

#[test]
fn global_alias_must_be_detailed() {
    let alias = Alias::new("cmd".into(), None, true, true);
    assert_eq!(
        alias,
        Alias {
            command: "cmd".into(),
            enabled: true,
            group: None,
            detailed: true,
            global: true,
        }
    );
}

#[test]
fn disabled_global_alias_must_be_detailed() {
    let alias = Alias::new("cmd".into(), None, false, true);
    assert_eq!(
        alias,
        Alias {
            command: "cmd".into(),
            enabled: false,
            group: None,
            detailed: true,
            global: true,
        }
    )
}

#[test]
fn grouped_disabled_alias_is_detailed_despite_not_global() {
    // a disabled alias forces the detailed form even though it is not global
    let alias = Alias::new("cmd".into(), Some("g".into()), false, false);
    assert!(alias.detailed);
    assert_eq!(alias.group.as_deref(), Some("g"));
}

#[test]
fn map_insert_keeps_position_on_replace() {
    let mut config = Config::new();
    config
        .aliases
        .insert("a".to_string(), Alias::new("one".into(), None, true, false));
    config
        .aliases
        .insert("b".to_string(), Alias::new("two".into(), None, true, false));
    let old = config
        .aliases
        .insert("a".to_string(), Alias::new("three".into(), None, true, false));
    assert_eq!(old, Some(Alias::new("one".into(), None, true, false)));
    assert_eq!(config.aliases.key_at(0), "a");
    assert_eq!(config.aliases.val_at(0).command, "three");
    assert_eq!(config.aliases.len(), 2);
}

#[test]
fn map_shift_remove_keeps_order() {
    let mut config = Config::new();
    config
        .aliases
        .insert("a".to_string(), Alias::new("one".into(), None, true, false));
    config
        .aliases
        .insert("b".to_string(), Alias::new("two".into(), None, true, false));
    config
        .aliases
        .insert("c".to_string(), Alias::new("three".into(), None, true, false));
    let removed = config.aliases.shift_remove("b");
    assert!(removed.is_some());
    assert_eq!(config.aliases.key_at(0), "a");
    assert_eq!(config.aliases.key_at(1), "c");
    assert!(!config.aliases.contains_key("b"));
}

#[test]
fn alias_and_group_may_share_a_name() {
    let mut config = Config::new();
    config.groups.insert("x".to_string(), true);
    config
        .aliases
        .insert("x".to_string(), Alias::new("echo x".into(), None, true, false));
    assert!(config.groups.contains_key("x"));
    assert!(config.aliases.contains_key("x"));
}
