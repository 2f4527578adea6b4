use aliasmgr::add::{add_alias, add_alias_str, add_group};
use aliasmgr::edit::edit_alias;
use aliasmgr::model::{Alias, Config};
use aliasmgr::outcome::{Failure, Outcome};
use aliasmgr::relocate::move_alias;
use aliasmgr::remove::{remove_alias, remove_aliases, remove_all, remove_group};
use aliasmgr::rename::{rename_alias, rename_group};

fn test_alias() -> Alias {
    // No group, enabled, not detailed, not global
    Alias::new("ls -la".into(), None, true, false)
}

#[test]
fn add_alias_to_empty_config() {
    let mut config = Config::new();
    let result = add_alias(&mut config, "ll", &test_alias());
    assert!(result.is_ok());
    assert_eq!(config.aliases.get("ll"), Some(&test_alias()));
}

#[test]
fn add_alias_to_empty_config_reports_command() {
    // on an empty configuration the addition is shell-visible with the
    // exact defining statement
    let mut config = Config::new();
    let result = add_alias(
        &mut config,
        "ll",
        &Alias::new("ls -la".into(), None, true, false),
    );
    assert_eq!(
        result.unwrap(),
        Outcome::Command("alias -- 'll'='ls -la'".to_string())
    );
    assert!(!config.aliases.get("ll").unwrap().detailed);
}

#[test]
fn add_alias_to_existing_config() {
    let mut config = Config::new();
    config.aliases.insert("ll".into(), test_alias());

    let mut new_alias = test_alias();
    new_alias.command = "git status".into();

    let result = add_alias(&mut config, "ll", &new_alias);
    assert!(result.is_err());
    assert_eq!(config.aliases.get("ll"), Some(&test_alias()));
    assert_ne!(config.aliases.get("ll"), Some(&new_alias));
}

#[test]
fn add_disabled_alias() {
    let mut config = Config::new();
    let new_alias = Alias::new("ls -la".into(), None, false, false);

    let result = add_alias(&mut config, "ll", &new_alias);
    assert!(result.is_ok());
    assert_eq!(config.aliases.get("ll"), Some(&new_alias));
    assert_ne!(config.aliases.get("ll"), Some(&test_alias()));
}

#[test]
fn add_existing_alias() {
    let mut config = Config::new();
    config.aliases.insert("ll".into(), test_alias());
    let result = add_alias(&mut config, "ll", &test_alias());
    assert!(result.is_err());
}

#[test]
fn add_alias_to_nonexistent_group() {
    let mut config = Config::new();
    let mut new_alias = test_alias();
    new_alias.group = Some("nonexistent_group".into());

    let result = add_alias(&mut config, "ll", &new_alias);
    assert!(result.is_err());
    assert!(matches!(result, Err(Failure::GroupDoesNotExist)));
}

#[test]
fn add_alias_to_existing_group() {
    let mut config = Config::new();
    config.groups.insert("file_ops".into(), true);
    let mut new_alias = test_alias();
    new_alias.group = Some("file_ops".into());

    let result = add_alias(&mut config, "ll", &new_alias);
    assert!(result.is_ok());
    assert_eq!(config.aliases.get("ll"), Some(&new_alias));
    assert!(config.groups.contains_key("file_ops"));
}

#[test]
fn add_group_to_new_config() {
    let mut config = Config::new();
    let result = add_group(&mut config, "dev_tools", true);
    assert!(result.is_ok());
    assert!(config.groups.contains_key("dev_tools"));
}

#[test]
fn add_group_to_existing_config() {
    let mut config = Config::new();
    config.groups.insert("utils".into(), true);
    let result = add_group(&mut config, "dev_tools", true);
    assert!(result.is_ok());
    assert!(config.groups.contains_key("dev_tools"));
    assert!(config.groups.contains_key("utils"));
}

#[test]
fn add_existing_group() {
    let mut config = Config::new();
    config.groups.insert("dev_tools".into(), true);
    let result = add_group(&mut config, "dev_tools", true);
    assert!(result.is_err());
    assert!(matches!(result, Err(Failure::GroupAlreadyExists)));
}

#[test]
fn add_disabled_group() {
    let mut config = Config::new();
    let result = add_group(&mut config, "dev_tools", false);
    assert!(result.is_ok());
    assert_eq!(config.groups.get("dev_tools"), Some(false));
}

#[test]
fn add_enabled_group() {
    let mut config = Config::new();
    let result = add_group(&mut config, "dev_tools", true);
    assert!(result.is_ok());
    assert_eq!(config.groups.get("dev_tools"), Some(true));
}

#[test]
fn add_global_alias() {
    let mut config = Config::new();
    let new_alias = Alias::new("ls -la".into(), None, true, true);

    let result = add_alias(&mut config, "ll", &new_alias);
    assert!(result.is_ok());
    assert_eq!(config.aliases.get("ll"), Some(&new_alias));
}

#[test]
fn add_string_global_alias() {
    let alias = Alias::new("ls -la".into(), None, true, true);
    let result = add_alias_str("ll", &alias);
    assert_eq!(result, "alias -g -- 'll'='ls -la'");
}

#[test]
fn add_string_non_global_alias() {
    let alias = Alias::new("ls -la".into(), None, true, false);
    let result = add_alias_str("ll", &alias);
    assert_eq!(result, "alias -- 'll'='ls -la'");
}

fn restorable_config() -> Config {
    let mut config = Config::new();
    config.groups.insert("g".to_string(), true);
    config
        .aliases
        .insert("keep".to_string(), Alias::new("kept".into(), None, true, false));
    config
}

#[test]
fn add_then_remove_restores_the_config() {
    // adding a fresh alias and removing the same name gives back the
    // configuration exactly
    let mut config = restorable_config();
    let added = Alias::new("new".into(), Some("g".into()), true, false);
    add_alias(&mut config, "tmp", &added).unwrap();
    remove_alias(&mut config, "tmp").unwrap();
    assert_eq!(config, restorable_config());
}

#[test]
fn test_edit_alias_success() {
    let mut config = Config::new();
    config.aliases.insert(
        "test".into(),
        Alias::new("old_command".into(), None, true, false),
    );

    let new_alias = Alias::new("test_command".into(), None, true, false);

    let result = edit_alias(&mut config, "test", &new_alias);

    assert!(result.is_ok());
    assert_eq!(config.aliases.get("test").unwrap(), &new_alias);
}

#[test]
fn test_edit_alias_nonexistent() {
    let mut config = Config::new();
    let new_alias = Alias::new("test_command".into(), None, true, false);
    let result = edit_alias(&mut config, "nonexistent", &new_alias);
    assert!(matches!(result, Err(Failure::AliasDoesNotExist)));
}

#[test]
fn move_alias_to_existing_group() {
    let mut config = Config::new();
    config
        .aliases
        .insert("ll".into(), Alias::new("ls -la".into(), None, true, false));
    config.groups.insert("utilities".into(), true);
    let result = move_alias(&mut config, "ll", &Some("utilities".into()));

    let mut new_alias = Alias::new("ls -la".into(), None, true, false);
    new_alias.group = Some("utilities".into());

    assert!(result.is_ok());
    assert_eq!(config.aliases.get("ll"), Some(&new_alias));
}

#[test]
fn move_alias_to_non_existent_group() {
    let mut config = Config::new();
    config
        .aliases
        .insert("ll".into(), Alias::new("ls -la".into(), None, true, false));
    let result = move_alias(&mut config, "ll", &Some("nonexistent".into()));
    assert!(matches!(result, Err(Failure::GroupDoesNotExist)));
    // the alias's group field is untouched
    assert_eq!(config.aliases.get("ll").unwrap().group, None);
}

#[test]
fn move_non_existent_alias() {
    let mut config = Config::new();
    let result = move_alias(&mut config, "nonexistent", &Some("utilities".into()));
    assert!(matches!(result, Err(Failure::AliasDoesNotExist)));
}

#[test]
fn move_alias_to_none_group() {
    let mut config = Config::new();
    let mut alias = Alias::new("ls -la".into(), None, true, false);
    alias.group = Some("utilities".into());
    config.aliases.insert("ll".into(), alias);

    let result = move_alias(&mut config, "ll", &None);

    assert!(result.is_ok());
    assert_eq!(
        config.aliases.get("ll"),
        Some(&Alias::new("ls -la".into(), None, true, false))
    );
}

fn sample_remove_config() -> Config {
    let mut config = Config::new();
    config.aliases.insert(
        "foo".to_string(),
        Alias::new("bar".to_string(), None, true, false),
    );
    config.aliases.insert(
        "baz".to_string(),
        Alias::new("qux".to_string(), None, true, false),
    );
    config.groups.insert("dev".to_string(), true);

    config
}

#[test]
fn test_remove_alias_success() {
    let mut config = sample_remove_config();
    let result = remove_alias(&mut config, "foo");
    assert!(result.is_ok());
    assert_eq!(
        result.unwrap(),
        Outcome::Command("unalias 'foo'".to_string())
    );
    assert!(config.aliases.contains_key("baz"));
    assert!(!config.aliases.contains_key("foo"));
}

#[test]
fn test_remove_alias_failure() {
    let mut config = sample_remove_config();
    let result = remove_alias(&mut config, "nonexistent");
    assert!(result.is_err());
    assert_eq!(result.err(), Some(Failure::AliasDoesNotExist));
}

#[test]
fn test_remove_group_success() {
    let mut config = sample_remove_config();
    let result = remove_group(&mut config, "dev");
    assert!(result.is_ok());
    assert_eq!(result.unwrap(), Outcome::ConfigChanged);
    assert!(!config.groups.contains_key("dev"));
}

#[test]
fn test_remove_group_failure() {
    let mut config = sample_remove_config();
    let result = remove_group(&mut config, "nonexistent");
    assert!(result.is_err());
    assert_eq!(result.err(), Some(Failure::GroupDoesNotExist));
}

#[test]
fn test_remove_all() {
    let mut config = sample_remove_config();
    let result = remove_all(&mut config);
    assert!(result.is_ok());
    assert_eq!(result.unwrap(), Outcome::Command("unalias -a".to_string()));
    assert!(config.aliases.is_empty());
    assert_eq!(config.groups.len(), 0);
}

#[test]
fn test_remove_aliases() {
    let mut config = sample_remove_config();
    let names = vec!["foo".to_string(), "baz".to_string()];
    let result = remove_aliases(&mut config, &names);
    assert!(result.is_ok());
    assert_eq!(
        result.unwrap(),
        Outcome::Command("unalias 'foo'\nunalias 'baz'".to_string())
    );
    assert!(config.aliases.is_empty());
    assert!(config.groups.contains_key("dev"));
}

#[test]
fn test_remove_aliases_missing_name_fails() {
    let mut config = sample_remove_config();
    let names = vec!["foo".to_string(), "gone".to_string()];
    let result = remove_aliases(&mut config, &names);
    assert_eq!(result.err(), Some(Failure::AliasDoesNotExist));
}

fn create_rename_config() -> Config {
    let mut config = Config::new();
    config.groups.insert("group".into(), true);
    config.groups.insert("other_group".into(), true);
    config.aliases.insert(
        "foo".into(),
        Alias::new("bar".into(), Some("group".into()), true, false),
    );
    config
        .aliases
        .insert("ll".into(), Alias::new("ls -la".into(), None, true, false));

    config
}

#[test]
fn test_rename_alias_success() {
    let mut config = create_rename_config();
    let result = rename_alias(&mut config, "foo", "nonexistent");
    assert!(result.is_ok());
}

#[test]
fn test_rename_alias_nonexistent() {
    let mut config = create_rename_config();
    let result = rename_alias(&mut config, "nonexistent", "boo");
    assert!(result.is_err());
    assert!(matches!(result.err().unwrap(), Failure::AliasDoesNotExist));
}

#[test]
fn test_rename_alias_to_existent() {
    let mut config = create_rename_config();
    let result = rename_alias(&mut config, "foo", "ll");
    assert!(result.is_err());
    assert!(matches!(result.err().unwrap(), Failure::AliasAlreadyExists));
}

#[test]
fn test_rename_alias_command_text() {
    let mut config = create_rename_config();
    let result = rename_alias(&mut config, "ll", "la");
    assert_eq!(
        result.unwrap(),
        Outcome::Command("unalias 'll'\nalias -- 'la'='ls -la'".to_string())
    );
}

#[test]
fn test_rename_group_success() {
    let mut config = create_rename_config();
    let result = rename_group(&mut config, "group", "nonexistent");
    assert!(result.is_ok());
    assert!(matches!(result.unwrap(), Outcome::ConfigChanged));
    assert_eq!(
        config.aliases.get("foo").unwrap().group,
        Some("nonexistent".to_string())
    );
}

#[test]
fn test_rename_group_nonexistent() {
    let mut config = create_rename_config();
    let result = rename_group(&mut config, "nonexistent", "boo");
    assert!(result.is_err());
    assert!(matches!(result.err().unwrap(), Failure::GroupDoesNotExist));
}

#[test]
fn test_rename_group_to_existent() {
    let mut config = create_rename_config();
    let result = rename_group(&mut config, "group", "other_group");
    assert!(result.is_err());
    assert!(matches!(result.err().unwrap(), Failure::GroupAlreadyExists));
}
