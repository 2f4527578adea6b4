use aliasmgr::codec::{
    config_to_spec, convert_spec_to_config, AliasSpec, AliasSpecTypes, ConfigSpec, DecodeError,
    GroupSpec,
};
use aliasmgr::model::{Alias, Config};

/// The configuration the sample on-disk mapping stands for.
fn expected_config() -> Config {
    let mut config = Config::new();
    config
        .aliases
        .insert("py".into(), Alias::new("python3".into(), None, true, false));
    config
        .aliases
        .insert("js".into(), Alias::new("node".into(), None, false, false));
    config
        .aliases
        .insert("x".into(), Alias::new("xargs".into(), None, true, true));

    config.aliases.insert(
        "ga".into(),
        Alias::new("git add".into(), Some("git".into()), true, false),
    );

    let mut alias = Alias::new("git commit".into(), Some("git".into()), true, false);
    alias.detailed = true;
    config.aliases.insert("gc".into(), alias);

    config.aliases.insert(
        "bar".into(),
        Alias::new("echo 'Hello World'".into(), Some("foo".into()), true, false),
    );

    let mut alias = Alias::new("ls -la".into(), Some("foo".into()), true, false);
    alias.detailed = true;
    config.aliases.insert("ll".into(), alias);

    config.groups.insert("git".into(), true);
    config.groups.insert("foo".into(), false);

    config
}

fn detailed(command: &str, enabled: bool, global: bool) -> AliasSpecTypes {
    AliasSpecTypes::Detailed(AliasSpec {
        command: command.to_string(),
        enabled,
        global,
    })
}

/// The same entries the sample file holds, in file order.
fn sample_spec() -> ConfigSpec {
    ConfigSpec {
        entries: vec![
            ("py".to_string(), AliasSpecTypes::Simple("python3".to_string())),
            ("js".to_string(), detailed("node", false, false)),
            ("x".to_string(), detailed("xargs", true, true)),
            (
                "git".to_string(),
                AliasSpecTypes::Group(GroupSpec {
                    enabled: true,
                    aliases: vec![
                        ("ga".to_string(), AliasSpecTypes::Simple("git add".to_string())),
                        ("gc".to_string(), detailed("git commit", true, false)),
                    ],
                }),
            ),
            (
                "foo".to_string(),
                AliasSpecTypes::Group(GroupSpec {
                    enabled: false,
                    aliases: vec![
                        (
                            "bar".to_string(),
                            AliasSpecTypes::Simple("echo 'Hello World'".to_string()),
                        ),
                        ("ll".to_string(), detailed("ls -la", true, false)),
                    ],
                }),
            ),
        ],
    }
}

#[test]
fn test_convert_spec_to_config() {
    let config = convert_spec_to_config(&sample_spec()).unwrap();
    assert_eq!(config, expected_config());
}

#[test]
fn test_nested_group_handling() {
    // a group inside a group is refused, not silently dropped
    let spec = ConfigSpec {
        entries: vec![(
            "group1".to_string(),
            AliasSpecTypes::Group(GroupSpec {
                enabled: true,
                aliases: vec![
                    ("alias1".to_string(), AliasSpecTypes::Simple("command1".to_string())),
                    (
                        "subgroup".to_string(),
                        AliasSpecTypes::Group(GroupSpec {
                            enabled: false,
                            aliases: vec![(
                                "alias2".to_string(),
                                AliasSpecTypes::Simple("command2".to_string()),
                            )],
                        }),
                    ),
                ],
            }),
        )],
    };
    assert_eq!(convert_spec_to_config(&spec), Err(DecodeError::NestedGroup));
}

#[test]
fn bare_entry_decodes_to_plain_enabled_alias() {
    // `foo = "bar"` becomes an enabled, ungrouped, non-detailed alias
    let spec = ConfigSpec {
        entries: vec![("foo".to_string(), AliasSpecTypes::Simple("bar".to_string()))],
    };
    let config = convert_spec_to_config(&spec).unwrap();
    assert_eq!(
        config.aliases.get("foo"),
        Some(&Alias {
            command: "bar".to_string(),
            group: None,
            enabled: true,
            detailed: false,
            global: false,
        })
    );
    assert_eq!(config.groups.len(), 0);
}

#[test]
fn encode_emits_shorthand_only_for_plain_aliases() {
    let mut config = Config::new();
    config
        .aliases
        .insert("plain".into(), Alias::new("one".into(), None, true, false));
    config
        .aliases
        .insert("off".into(), Alias::new("two".into(), None, false, false));
    let spec = config_to_spec(&config);
    assert_eq!(spec.entries.len(), 2);
    assert!(matches!(spec.entries[0].1, AliasSpecTypes::Simple(_)));
    assert!(matches!(spec.entries[1].1, AliasSpecTypes::Detailed(_)));
}

#[test]
fn encode_degrades_dangling_group_to_top_level() {
    // an alias whose recorded group vanished becomes a bare entry rather
    // than being dropped
    let mut config = Config::new();
    config.aliases.insert(
        "a".into(),
        Alias::new("cmd".into(), Some("gone".into()), true, false),
    );
    let spec = config_to_spec(&config);
    assert_eq!(spec.entries.len(), 1);
    assert_eq!(spec.entries[0].0, "a");
    assert!(matches!(spec.entries[0].1, AliasSpecTypes::Simple(_)));
}

#[test]
fn decode_of_encode_restores_the_config() {
    // the round trip restores the mapping, the group order, and the alias
    // order within every scope; the total alias order regroups scope by
    // scope
    let config = expected_config();
    let decoded = convert_spec_to_config(&config_to_spec(&config)).unwrap();
    assert_eq!(decoded, config);
}

#[test]
fn round_trip_regroups_interleaved_aliases_scope_by_scope() {
    let mut config = Config::new();
    config.groups.insert("g".into(), true);
    config.aliases.insert(
        "in_group".into(),
        Alias::new("one".into(), Some("g".into()), true, false),
    );
    config
        .aliases
        .insert("free".into(), Alias::new("two".into(), None, true, false));
    let decoded = convert_spec_to_config(&config_to_spec(&config)).unwrap();
    // same mapping, but the ungrouped alias now comes first
    assert_eq!(decoded.aliases.get("in_group"), config.aliases.get("in_group"));
    assert_eq!(decoded.aliases.get("free"), config.aliases.get("free"));
    assert_eq!(decoded.groups, config.groups);
    assert_eq!(decoded.aliases.key_at(0), "free");
    assert_eq!(decoded.aliases.key_at(1), "in_group");
}
