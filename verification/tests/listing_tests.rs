use aliasmgr::listing::{get_aliases_from_single_group, get_all_aliases_grouped};
use aliasmgr::model::{Alias, Config};
use aliasmgr::outcome::{Failure, Outcome};
use aliasmgr::shell::ShellType;
use aliasmgr::sort::{sort_aliases_in_group, sort_all_aliases, sort_groups};
use aliasmgr::sync::generate_alias_script_content;

fn create_test_config() -> Config {
    let mut config = Config::new();

    config.groups.insert("group1".into(), true);
    config.groups.insert("group2".into(), true);
    config.groups.insert("group3".into(), false);

    // Named group with enabled and disabled aliases, and a global alias
    config.aliases.insert(
        "alias1".into(),
        Alias::new("cmd1".into(), Some("group1".into()), true, false),
    );
    config.aliases.insert(
        "alias1_disabled".into(),
        Alias::new("cmd1".into(), Some("group1".into()), false, false),
    );
    config.aliases.insert(
        "global_alias".into(),
        Alias::new("global_cmd".into(), None, true, true),
    );

    // Another named group with only enabled aliases
    config.aliases.insert(
        "alias2".into(),
        Alias::new("cmd2".into(), Some("group2".into()), true, false),
    );

    // Named group that is disabled with enabled and disabled aliases
    config.aliases.insert(
        "alias3".into(),
        Alias::new("cmd3".into(), Some("group3".into()), true, false),
    );
    config.aliases.insert(
        "alias3_disabled".into(),
        Alias::new("cmd3".into(), Some("group3".into()), true, false),
    );

    // Ungrouped aliases
    config
        .aliases
        .insert("alias4".into(), Alias::new("cmd4".into(), None, true, false));
    config.aliases.insert(
        "alias4_disabled".into(),
        Alias::new("cmd4".into(), None, false, false),
    );

    config
}

fn bucket_for<'a>(
    groups: &'a [(Option<String>, Vec<String>)],
    key: &Option<String>,
) -> Option<&'a Vec<String>> {
    groups.iter().find(|(g, _)| g == key).map(|(_, v)| v)
}

#[test]
fn test_get_single_group() {
    let config = create_test_config();

    let group = get_aliases_from_single_group(&config, Some("group1"), &ShellType::Bash);

    assert!(group.is_ok());
    let group = group.unwrap();

    assert_eq!(group.len(), 2);

    assert!(group.contains(&"alias1".to_string()));
    assert!(group.contains(&"alias1_disabled".to_string()));

    assert!(!group.contains(&"alias2".to_string()));
    assert!(!group.contains(&"alias3".to_string()));
    assert!(!group.contains(&"alias3_disabled".to_string()));
    assert!(!group.contains(&"alias4".to_string()));
    assert!(!group.contains(&"alias4_disabled".to_string()));
}

#[test]
fn test_get_ungrouped_aliases() {
    let config = create_test_config();

    let ungrouped = get_aliases_from_single_group(&config, None, &ShellType::Bash);

    assert!(ungrouped.is_ok());
    let ungrouped = ungrouped.unwrap();

    assert_eq!(ungrouped.len(), 2);

    assert!(ungrouped.contains(&"alias4".to_string()));
    assert!(ungrouped.contains(&"alias4_disabled".to_string()));

    assert!(!ungrouped.contains(&"alias1".to_string()));
    assert!(!ungrouped.contains(&"alias1_disabled".to_string()));
    assert!(!ungrouped.contains(&"alias2".to_string()));
    assert!(!ungrouped.contains(&"alias3".to_string()));
    assert!(!ungrouped.contains(&"alias3_disabled".to_string()));
}

#[test]
fn test_get_nonexistent_group() {
    let config = Config::new();
    let group = get_aliases_from_single_group(&config, Some("nonexistent"), &ShellType::Bash);
    assert!(group.is_err());
}

#[test]
fn test_get_all_groups() {
    let config = create_test_config();
    let groups = get_all_aliases_grouped(&config, &ShellType::Bash);

    assert!(bucket_for(&groups, &Some("group1".into())).is_some());
    assert!(bucket_for(&groups, &Some("group2".into())).is_some());
    assert!(bucket_for(&groups, &Some("group3".into())).is_some());
    assert!(bucket_for(&groups, &None).is_some());

    assert!(bucket_for(&groups, &Some("group1".into()))
        .unwrap()
        .contains(&"alias1".to_string()));
    assert!(bucket_for(&groups, &Some("group1".into()))
        .unwrap()
        .contains(&"alias1_disabled".to_string()));

    assert!(bucket_for(&groups, &Some("group2".into()))
        .unwrap()
        .contains(&"alias2".to_string()));
    assert!(bucket_for(&groups, &Some("group3".into()))
        .unwrap()
        .contains(&"alias3".to_string()));
    assert!(bucket_for(&groups, &None).unwrap().contains(&"alias4".to_string()));
}

#[test]
fn test_get_all_groups_no_aliases() {
    let mut config = Config::new();
    config.groups.insert("group1".into(), true);
    config.groups.insert("group2".into(), true);

    let groups = get_all_aliases_grouped(&config, &ShellType::Bash);
    assert_eq!(groups.len(), 3); // group1, group2, ungrouped
    assert_eq!(bucket_for(&groups, &Some("group1".into())).unwrap().len(), 0);
    assert_eq!(bucket_for(&groups, &Some("group2".into())).unwrap().len(), 0);
    assert_eq!(bucket_for(&groups, &None).unwrap().len(), 0);
}

#[test]
fn test_get_all_groups_empty() {
    let config = Config::new();

    let groups = get_all_aliases_grouped(&config, &ShellType::Bash);
    assert_eq!(groups.len(), 1); // Only ungrouped should be present
    assert!(bucket_for(&groups, &None).is_some());
    assert_eq!(bucket_for(&groups, &None).unwrap().len(), 0);
}

#[test]
fn test_get_all_groups_no_groups() {
    let mut config = Config::new();
    config
        .aliases
        .insert("alias1".into(), Alias::new("cmd1".into(), None, true, false));
    let groups = get_all_aliases_grouped(&config, &ShellType::Bash);
    assert_eq!(groups.len(), 1); // Only ungrouped should be present
    assert!(bucket_for(&groups, &None).unwrap().contains(&"alias1".to_string()));
}

#[test]
fn test_get_single_group_no_aliases() {
    let mut config = Config::new();
    config.groups.insert("group1".into(), true);

    let group = get_aliases_from_single_group(&config, Some("group1"), &ShellType::Bash);
    assert!(group.is_ok());
    let group = group.unwrap();
    assert_eq!(group.len(), 0);
}

#[test]
fn test_get_single_group_bash_skips_global() {
    let config = create_test_config();
    let ungrouped = get_aliases_from_single_group(&config, None, &ShellType::Bash);
    assert!(ungrouped.is_ok());
    let ungrouped = ungrouped.unwrap();
    assert!(!ungrouped.contains(&"global_alias".to_string()));
}

#[test]
fn test_get_all_groups_bash_skips_global() {
    let config = create_test_config();
    let groups = get_all_aliases_grouped(&config, &ShellType::Bash);
    let ungrouped = bucket_for(&groups, &None).unwrap();
    assert!(!ungrouped.contains(&"global_alias".to_string()));
}

#[test]
fn test_get_single_group_zsh_includes_global() {
    let config = create_test_config();
    let ungrouped = get_aliases_from_single_group(&config, None, &ShellType::Zsh);
    assert!(ungrouped.is_ok());
    let ungrouped = ungrouped.unwrap();
    assert!(ungrouped.contains(&"global_alias".to_string()));
}

#[test]
fn test_get_all_group_zsh_includes_global() {
    let config = create_test_config();
    let groups = get_all_aliases_grouped(&config, &ShellType::Zsh);
    let ungrouped = bucket_for(&groups, &None).unwrap();
    assert!(ungrouped.contains(&"global_alias".to_string()));
}

#[test]
fn test_sort_aliases_all_aliases() {
    let mut config = Config::new();
    config.groups.insert("group".to_string(), true);
    config.aliases.insert(
        "alias2".to_string(),
        Alias::new("cmd".into(), Some("group".to_string()), true, false),
    );
    config.aliases.insert(
        "alias1".to_string(),
        Alias::new("cmd".into(), Some("group".to_string()), true, false),
    );
    config
        .aliases
        .insert("alias4".to_string(), Alias::new("cmd".into(), None, true, false));
    config
        .aliases
        .insert("alias3".to_string(), Alias::new("cmd".into(), None, true, false));
    let result = sort_all_aliases(&mut config).unwrap();
    assert_eq!(result, Outcome::ConfigChanged);
    assert_eq!(
        get_aliases_from_single_group(&config, None, &ShellType::Bash).unwrap(),
        vec!["alias3".to_string(), "alias4".to_string()]
    );
    assert_eq!(
        get_aliases_from_single_group(&config, Some("group"), &ShellType::Bash).unwrap(),
        vec!["alias1".to_string(), "alias2".to_string()]
    );
}

#[test]
fn test_sort_groups() {
    let mut config = Config::new();
    config.groups.insert("beta".to_string(), true);
    config.groups.insert("alpha".to_string(), true);
    let result = sort_groups(&mut config).unwrap();
    assert_eq!(result, Outcome::ConfigChanged);
    assert_eq!(config.groups.key_at(0), "alpha");
    assert_eq!(config.groups.key_at(1), "beta");
}

#[test]
fn test_sort_aliases_in_group() {
    let mut config = Config::new();
    config.groups.insert("group".to_string(), true);
    config.aliases.insert(
        "alias3".to_string(),
        Alias::new("cmd".into(), Some("group".to_string()), true, false),
    );
    config.aliases.insert(
        "alias1".to_string(),
        Alias::new("cmd".into(), Some("group".to_string()), true, false),
    );
    config
        .aliases
        .insert("alias4".to_string(), Alias::new("cmd".into(), None, true, false));
    config
        .aliases
        .insert("alias2".to_string(), Alias::new("cmd".into(), None, true, false));

    let result = sort_aliases_in_group(&mut config, Some("group")).unwrap();
    assert_eq!(result, Outcome::ConfigChanged);
    assert_eq!(
        get_aliases_from_single_group(&config, Some("group"), &ShellType::Bash).unwrap(),
        vec!["alias1".to_string(), "alias3".to_string()],
    );
    assert_eq!(
        get_aliases_from_single_group(&config, None, &ShellType::Bash).unwrap(),
        vec!["alias4".to_string(), "alias2".to_string()],
    );
}

#[test]
fn test_sort_aliases_in_ungrouped() {
    let mut config = Config::new();
    config.groups.insert("group".to_string(), true);
    config.aliases.insert(
        "alias3".to_string(),
        Alias::new("cmd".into(), Some("group".to_string()), true, false),
    );
    config.aliases.insert(
        "alias1".to_string(),
        Alias::new("cmd".into(), Some("group".to_string()), true, false),
    );
    config
        .aliases
        .insert("alias4".to_string(), Alias::new("cmd".into(), None, true, false));
    config
        .aliases
        .insert("alias2".to_string(), Alias::new("cmd".into(), None, true, false));

    let result = sort_aliases_in_group(&mut config, None).unwrap();
    assert_eq!(result, Outcome::ConfigChanged);
    assert_eq!(
        get_aliases_from_single_group(&config, Some("group"), &ShellType::Bash).unwrap(),
        vec!["alias3".to_string(), "alias1".to_string()],
    );
    assert_eq!(
        get_aliases_from_single_group(&config, None, &ShellType::Bash).unwrap(),
        vec!["alias2".to_string(), "alias4".to_string()],
    );
}

#[test]
fn test_sort_aliases_in_non_existent_group() {
    let mut config = Config::new();
    let result = sort_aliases_in_group(&mut config, Some("non_existent_group"));
    assert!(matches!(result, Err(Failure::GroupDoesNotExist)));
}

#[test]
fn partial_sort_leaves_outside_aliases_in_place() {
    // an ungrouped alias between two group members keeps its slot; the two
    // members are ordered relative to each other without becoming adjacent
    let mut config = Config::new();
    config.groups.insert("g".to_string(), true);
    config.aliases.insert(
        "zz".to_string(),
        Alias::new("late".into(), Some("g".to_string()), true, false),
    );
    config
        .aliases
        .insert("mid".to_string(), Alias::new("cmd".into(), None, true, false));
    config.aliases.insert(
        "aa".to_string(),
        Alias::new("early".into(), Some("g".to_string()), true, false),
    );

    sort_aliases_in_group(&mut config, Some("g")).unwrap();

    assert_eq!(config.aliases.key_at(0), "aa");
    assert_eq!(config.aliases.key_at(1), "mid");
    assert_eq!(config.aliases.key_at(2), "zz");
    assert_eq!(config.aliases.val_at(0).command, "early");
    assert_eq!(config.aliases.val_at(2).command, "late");
}

fn sync_sample_config() -> Config {
    let mut config = Config::new();
    config
        .aliases
        .insert("ll".to_string(), Alias::new("ls -la".to_string(), None, true, false));
    config
}

#[test]
fn empty_config_only_contains_reset_command() {
    let config = Config::new();
    let file_string = generate_alias_script_content(&config, &ShellType::Bash);
    assert!(file_string.contains("unalias -a"));
}

#[test]
fn filled_config_contains_reset_command() {
    let config = sync_sample_config();
    let file_string = generate_alias_script_content(&config, &ShellType::Bash);
    assert!(file_string.contains("unalias -a"));
}

#[test]
fn file_content_contains_enabled_alias() {
    let config = sync_sample_config();
    let file_string = generate_alias_script_content(&config, &ShellType::Bash);
    assert!(file_string.contains("ll"));
}

#[test]
fn file_content_excludes_disabled_alias() {
    let mut config = sync_sample_config();
    let disabled_alias = Alias::new("ls -la".to_string(), None, false, false);
    config
        .aliases
        .insert("disabled_alias".to_string(), disabled_alias);

    let file_string = generate_alias_script_content(&config, &ShellType::Bash);
    assert!(!file_string.contains("disabled_alias"));
    assert!(file_string.contains("ll"));
}

#[test]
fn file_content_contains_enabled_group_alias() {
    let mut config = Config::new();
    config.aliases.insert(
        "grouped_alias".to_string(),
        Alias::new(
            "echo Grouped".to_string(),
            Some("my_group".to_string()),
            true,
            false,
        ),
    );
    config.groups.insert("my_group".to_string(), true);
    let file_string = generate_alias_script_content(&config, &ShellType::Bash);
    assert!(file_string.contains("grouped_alias"));
}

#[test]
fn file_content_excledes_disabled_groups() {
    let mut config = Config::new();
    config.aliases.insert(
        "grouped_alias".to_string(),
        Alias::new(
            "echo Grouped".to_string(),
            Some("my_group".to_string()),
            true,
            false,
        ),
    );
    config.groups.insert("my_group".to_string(), false);
    let file_string = generate_alias_script_content(&config, &ShellType::Bash);
    assert!(!file_string.contains("grouped_alias"));
}

#[test]
fn sync_script_exact_content() {
    // ungrouped aliases come right after the reset, then the enabled groups
    let mut config = Config::new();
    config.groups.insert("g".to_string(), true);
    config.aliases.insert(
        "ga".to_string(),
        Alias::new("git add".to_string(), Some("g".to_string()), true, false),
    );
    config
        .aliases
        .insert("ll".to_string(), Alias::new("ls -la".to_string(), None, true, false));
    let file_string = generate_alias_script_content(&config, &ShellType::Bash);
    assert_eq!(
        file_string,
        "unalias -a\nalias -- 'll'='ls -la'\nalias -- 'ga'='git add'\n"
    );
}

#[test]
fn sorting_an_empty_config_changes_nothing() {
    let mut config = Config::new();
    assert_eq!(sort_all_aliases(&mut config).unwrap(), Outcome::ConfigChanged);
    assert_eq!(sort_groups(&mut config).unwrap(), Outcome::ConfigChanged);
    assert_eq!(config, Config::new());
}
