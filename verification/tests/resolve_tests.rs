use aliasmgr::add::is_valid_alias_name;
use aliasmgr::commands::{
    AddAliasArgs, AddCommand, AddGroupArgs, AddTarget, EditCommand, GroupRemoveArgs, InitCommand,
    MoveCommand, RemoveAliasArgs, RemoveCommand, RemoveTarget,
};
use aliasmgr::dispatch::{handle_add, handle_remove, handle_remove_all};
use aliasmgr::init::{handle_init, helper_shell_command};
use aliasmgr::model::{Alias, Config};
use aliasmgr::outcome::{Failure, Outcome};
use aliasmgr::resolve::{
    handle_add_alias, handle_edit, handle_move, handle_non_existing_group,
    handle_nonexistent_group, handle_overwrite_existing_alias, Confirm,
};
use aliasmgr::shell::{parse_shell, ShellType};

/// Scripted yes/no answers standing in for the interactive prompts.
struct Scripted {
    overwrite: bool,
    create_group: bool,
}

impl Confirm for Scripted {
    fn confirm_overwrite(&mut self, _context: &str) -> bool {
        self.overwrite
    }

    fn confirm_create_group(&mut self, _name: &str) -> bool {
        self.create_group
    }
}

fn answers(overwrite: bool, create_group: bool) -> Scripted {
    Scripted { overwrite, create_group }
}

fn sample_alias() -> Alias {
    Alias::new("ls -l".into(), None, true, false)
}

fn sample_config() -> Config {
    let mut config = Config::new();
    config.aliases.insert("ll".into(), sample_alias());
    config
}

#[test]
fn test_handle_add_alias_empty_config() {
    let mut config = Config::new();
    let mut confirm = answers(false, false);
    let result = handle_add_alias(&mut config, "ll", &sample_alias(), &mut confirm);
    assert!(result.is_ok());
    assert_eq!(config.aliases.get("ll"), Some(&sample_alias()));
}

#[test]
fn test_handle_add_alias_overwrite_yes() {
    let mut config = sample_config();

    let mut new_alias = sample_alias();
    new_alias.command = "ls -la".into();

    let mut confirm = answers(true, false);
    let result =
        handle_overwrite_existing_alias(&mut config, "ll", &new_alias, true, &mut confirm);

    assert!(result.is_ok());
    assert_eq!(config.aliases.get("ll"), Some(&new_alias));
}

#[test]
fn test_handle_add_alias_no_overwrite() {
    let mut config = sample_config();

    let mut new_alias = sample_alias();
    new_alias.command = "ls -la".into();

    let mut confirm = answers(false, false);
    let result =
        handle_overwrite_existing_alias(&mut config, "ll", &new_alias, false, &mut confirm);
    assert!(result.is_ok());
    assert_eq!(config.aliases.get("ll"), Some(&sample_alias()));
}

#[test]
fn test_handle_add_alias_overwrite_alias_move_group() {
    let mut config = Config::new();
    let mut old_alias = sample_alias();
    old_alias.group = Some("old_group".into());
    config.aliases.insert("ll".into(), old_alias);

    let mut new_alias = sample_alias();
    new_alias.command = "ls -la".into();
    new_alias.group = Some("new_group".into());

    config.groups.insert("old_group".into(), true);
    config.groups.insert("new_group".into(), true);

    let mut confirm = answers(true, false);
    let result = handle_add_alias(&mut config, "ll", &new_alias, &mut confirm);

    assert!(result.is_ok());
    assert_eq!(config.aliases.get("ll"), Some(&new_alias));
}

#[test]
fn test_handle_add_alias_overwrite_to_nonexising_group() {
    let mut config = Config::new();
    let mut old_alias = sample_alias();
    old_alias.group = Some("old_group".into());
    config.aliases.insert("ll".into(), old_alias);

    let mut new_alias = sample_alias();
    new_alias.command = "ls -la".into();
    new_alias.group = Some("new_group".into());

    config.groups.insert("old_group".into(), true);

    let mut confirm = answers(true, true);
    let result = handle_add_alias(&mut config, "ll", &new_alias, &mut confirm);

    assert!(result.is_ok());
    assert_eq!(config.aliases.get("ll"), Some(&new_alias));
    assert!(config.groups.contains_key("new_group"));
}

#[test]
fn test_handle_add_alias_overwrite_to_nonexising_group_no_create() {
    let mut config = Config::new();

    let mut old_alias = sample_alias();
    old_alias.group = Some("old_group".into());

    config.aliases.insert("ll".into(), old_alias.clone());
    config.groups.insert("old_group".into(), true);

    let mut new_alias = sample_alias();
    new_alias.command = "ls -la".into();
    new_alias.group = Some("new_group".into());

    let mut confirm = answers(true, false);
    let result = handle_add_alias(&mut config, "ll", &new_alias, &mut confirm);

    // the declined group creation leaves everything untouched
    assert_eq!(result.unwrap(), Outcome::NoChanges);
    assert_eq!(config.aliases.get("ll"), Some(&old_alias));
    assert!(config.groups.contains_key("old_group"));
    assert!(!config.groups.contains_key("new_group"));
}

#[test]
fn test_handle_add_group_success() {
    let mut config = Config::new();
    let mut confirm = answers(false, false);
    let result = handle_add(
        &mut config,
        AddCommand {
            target: AddTarget::Group(AddGroupArgs { name: "dev".into(), disabled: false }),
        },
        &ShellType::Bash,
        &mut confirm,
    );
    assert!(result.is_ok());
    assert!(config.groups.contains_key("dev"));
}

#[test]
fn test_handle_add_group_existing() {
    let mut config = Config::new();
    config.groups.insert("utils".into(), true);
    let mut confirm = answers(false, false);
    let result = handle_add(
        &mut config,
        AddCommand {
            target: AddTarget::Group(AddGroupArgs { name: "utils".into(), disabled: false }),
        },
        &ShellType::Bash,
        &mut confirm,
    );
    assert!(result.is_err());
    assert!(matches!(result.err().unwrap(), Failure::GroupAlreadyExists));
    assert!(config.groups.contains_key("utils"));
}

#[test]
fn test_handle_add_alias_unsupported_global_in_bash() {
    let mut config = Config::new();
    let mut confirm = answers(false, false);
    let result = handle_add(
        &mut config,
        AddCommand {
            target: AddTarget::Alias(AddAliasArgs {
                name: "ll".into(),
                command: "ls -l".into(),
                group: None,
                disabled: false,
                global: true,
            }),
        },
        &ShellType::Bash,
        &mut confirm,
    );
    assert!(result.is_err());
    assert!(matches!(result.err().unwrap(), Failure::UnsupportedGlobalAlias));
    assert!(config.aliases.get("ll").is_none());
}

#[test]
fn test_handle_add_alias_supported_global_in_zsh() {
    let mut config = Config::new();
    let mut confirm = answers(false, false);
    let result = handle_add(
        &mut config,
        AddCommand {
            target: AddTarget::Alias(AddAliasArgs {
                name: "ll".into(),
                command: "ls -l".into(),
                group: None,
                disabled: false,
                global: true,
            }),
        },
        &ShellType::Zsh,
        &mut confirm,
    );
    assert!(result.is_ok());
    assert_eq!(
        config.aliases.get("ll"),
        Some(&Alias::new("ls -l".into(), None, true, true))
    );
}

#[test]
fn test_valid_alias_name() {
    assert!(is_valid_alias_name("ll"));
    assert!(is_valid_alias_name("my_alias"));
    assert!(is_valid_alias_name("valid-alias_123"));
    assert!(!is_valid_alias_name("inavalid alias name"));
    assert!(!is_valid_alias_name("invalid\nalias"));
    assert!(!is_valid_alias_name("invalid\talias"));
    assert!(!is_valid_alias_name("invalid alias"));
    assert!(!is_valid_alias_name("another=invalid"));
    assert!(!is_valid_alias_name("white space"));
}

#[test]
fn test_add_invalid_alias_name_space() {
    let mut config = Config::new();
    let mut confirm = answers(false, false);
    let result = handle_add(
        &mut config,
        AddCommand {
            target: AddTarget::Alias(AddAliasArgs {
                name: "invalid alias".into(),
                command: "ls -l".into(),
                group: None,
                disabled: false,
                global: false,
            }),
        },
        &ShellType::Bash,
        &mut confirm,
    );
    assert!(result.is_err());
    assert!(matches!(result.err().unwrap(), Failure::InvalidAliasName));
    assert!(config.aliases.get("invalid alias").is_none());
}

#[test]
fn test_add_invalid_alias_name_equal_sign() {
    let mut config = Config::new();
    let mut confirm = answers(false, false);
    let result = handle_add(
        &mut config,
        AddCommand {
            target: AddTarget::Alias(AddAliasArgs {
                name: "invalid=alias".into(),
                command: "ls -l".into(),
                group: None,
                disabled: false,
                global: false,
            }),
        },
        &ShellType::Bash,
        &mut confirm,
    );
    assert!(result.is_err());
    assert!(matches!(result.err().unwrap(), Failure::InvalidAliasName));
    assert!(config.aliases.get("invalid=alias").is_none());
}

#[test]
fn test_handle_non_existing_group_create() {
    let mut config = Config::new();
    config
        .aliases
        .insert("ll".into(), Alias::new("ls -la".into(), None, true, false));

    let outcome = handle_non_existing_group(&mut config, "ll", "new_group", true).unwrap();

    assert!(matches!(outcome, Outcome::ConfigChanged));
    assert!(config.groups.contains_key("new_group"));
    assert_eq!(
        config.aliases.get("ll").unwrap().group,
        Some("new_group".to_string())
    );
}

#[test]
fn test_handle_non_existing_group_abort() {
    let mut config = Config::new();
    config
        .aliases
        .insert("ll".into(), Alias::new("ls -la".into(), None, true, false));
    let outcome = handle_non_existing_group(&mut config, "ll", "new_group", false).unwrap();
    assert!(matches!(outcome, Outcome::NoChanges));
    assert!(!config.groups.contains_key("new_group"));
    assert_eq!(config.aliases.get("ll").unwrap().group, None);
}

#[test]
fn test_handle_move_alias_to_existing_group() {
    let mut config = Config::new();
    config
        .aliases
        .insert("ll".into(), Alias::new("ls -la".into(), None, true, false));
    config.groups.insert("utilities".into(), true);
    let cmd = MoveCommand { name: "ll".into(), new_group: Some("utilities".into()) };
    let mut confirm = answers(false, false);
    let outcome = handle_move(&mut config, cmd, &mut confirm).unwrap();
    assert!(matches!(outcome, Outcome::ConfigChanged));
    assert_eq!(
        config.aliases.get("ll"),
        Some(&Alias::new("ls -la".into(), Some("utilities".into()), true, false))
    );
}

#[test]
fn test_move_non_existent_alias() {
    let mut config = Config::new();
    let cmd = MoveCommand { name: "nonexistent".into(), new_group: Some("utilities".into()) };
    let mut confirm = answers(false, false);
    let result = handle_move(&mut config, cmd, &mut confirm);
    assert!(matches!(result, Err(Failure::AliasDoesNotExist)));
    assert!(!config.aliases.contains_key("nonexistent"));
    assert!(!config.groups.contains_key("utilities"));
}

fn edit_test_config() -> Config {
    let mut config = Config::new();
    config.aliases.insert(
        "test".into(),
        Alias::new("original_command".into(), None, true, false),
    );
    config
}

#[test]
fn test_handle_edit_success() {
    let mut config = edit_test_config();
    let cmd = EditCommand {
        name: "test".into(),
        new_command: "edited_command".into(),
        toggle_enable: false,
        toggle_global: false,
        group: None,
    };
    let mut confirm = answers(false, false);
    let result = handle_edit(&mut config, cmd, &mut confirm);
    assert!(result.is_ok());
    let edited_alias = config.aliases.get("test").unwrap();
    assert_eq!(edited_alias.command, "edited_command");
}

#[test]
fn test_handle_edit_nonexistent() {
    let mut config = Config::new();
    let cmd = EditCommand {
        name: "nonexistent".into(),
        new_command: "edited_command".into(),
        toggle_enable: false,
        toggle_global: false,
        group: None,
    };
    let mut confirm = answers(false, false);
    let result = handle_edit(&mut config, cmd, &mut confirm);
    assert!(result.is_err());
    assert_eq!(result.err(), Some(Failure::AliasDoesNotExist));
}

#[test]
fn test_handle_edit_toggle_enable() {
    let mut config = edit_test_config();
    let cmd = EditCommand {
        name: "test".into(),
        new_command: "edit_command".into(),
        toggle_enable: true,
        toggle_global: false,
        group: None,
    };
    let mut confirm = answers(false, false);
    let result = handle_edit(&mut config, cmd, &mut confirm);
    assert!(result.is_ok());
    let edited_alias = config.aliases.get("test").unwrap();
    assert_eq!(edited_alias.command, "edit_command");
    assert!(!edited_alias.enabled);
}

#[test]
fn test_handle_edit_toggle_global() {
    let mut config = edit_test_config();
    let cmd = EditCommand {
        name: "test".into(),
        new_command: "edit_command".into(),
        toggle_enable: false,
        toggle_global: true,
        group: None,
    };
    let mut confirm = answers(false, false);
    let result = handle_edit(&mut config, cmd, &mut confirm);
    assert!(result.is_ok());
    let edited_alias = config.aliases.get("test").unwrap();
    assert_eq!(edited_alias.command, "edit_command");
    assert!(edited_alias.global);
}

#[test]
fn test_handle_edit_set_existing_group() {
    let mut config = edit_test_config();
    config.groups.insert("dev".into(), true);
    let cmd = EditCommand {
        name: "test".into(),
        new_command: "edit_command".into(),
        toggle_enable: false,
        toggle_global: false,
        group: Some(Some("dev".into())),
    };
    let mut confirm = answers(false, false);
    let result = handle_edit(&mut config, cmd, &mut confirm);
    assert!(result.is_ok());
    let edited_alias = config.aliases.get("test").unwrap();
    assert_eq!(edited_alias.command, "edit_command");
    assert_eq!(edited_alias.group.as_deref(), Some("dev"));
}

#[test]
fn test_handle_edit_set_nonexistent_group_create() {
    let mut config = edit_test_config();
    let result = handle_nonexistent_group(&mut config, "new_group", true);
    assert!(result.is_ok());
    assert!(config.groups.contains_key("new_group"));
}

#[test]
fn test_handle_edit_set_nonexistent_group_decline() {
    let mut config = edit_test_config();
    let result = handle_nonexistent_group(&mut config, "new_group", false);
    assert!(result.is_err());
    assert!(!config.groups.contains_key("new_group"));
}

fn remove_test_config() -> Config {
    let mut config = Config::new();
    config.groups.insert("files".to_string(), true);
    config.aliases.insert(
        "ls".to_string(),
        Alias::new("ls -la".to_string(), Some("files".to_string()), true, false),
    );
    config.aliases.insert(
        "rm".to_string(),
        Alias::new("rm -rf".to_string(), None, true, false),
    );
    config
}

#[test]
fn test_handle_remove_alias_success() {
    let mut config = remove_test_config();
    let result = handle_remove(
        &mut config,
        RemoveCommand {
            target: RemoveTarget::Alias(RemoveAliasArgs { name: "ls".to_string() }),
        },
        &ShellType::Bash,
        false,
    );
    assert!(result.is_ok());
    assert!(!config.aliases.contains_key("ls"));
    assert!(config.aliases.contains_key("rm"));
    assert!(config.groups.contains_key("files"));
}

#[test]
fn test_handle_remove_alias_failure() {
    let mut config = remove_test_config();
    let result = handle_remove(
        &mut config,
        RemoveCommand {
            target: RemoveTarget::Alias(RemoveAliasArgs { name: "nonexistent".to_string() }),
        },
        &ShellType::Bash,
        false,
    );
    assert!(matches!(result.err(), Some(Failure::AliasDoesNotExist)));
}

#[test]
fn test_handle_remove_group_success() {
    let mut config = remove_test_config();
    let result = handle_remove(
        &mut config,
        RemoveCommand {
            target: RemoveTarget::Group(GroupRemoveArgs {
                name: Some("files".to_string()),
                reassign: false,
            }),
        },
        &ShellType::Bash,
        false,
    );
    assert_eq!(result.unwrap(), Outcome::Command("unalias 'ls'".to_string()));
    assert!(!config.groups.contains_key("files"));
}

#[test]
fn test_handle_remove_group_failure() {
    let mut config = remove_test_config();
    let result = handle_remove(
        &mut config,
        RemoveCommand {
            target: RemoveTarget::Group(GroupRemoveArgs {
                name: Some("nonexistent".to_string()),
                reassign: false,
            }),
        },
        &ShellType::Bash,
        false,
    );
    assert!(matches!(result.err(), Some(Failure::GroupDoesNotExist)));
}

#[test]
fn test_remove_ungrouped_aliases() {
    let mut config = remove_test_config();
    let result = handle_remove(
        &mut config,
        RemoveCommand {
            target: RemoveTarget::Group(GroupRemoveArgs { name: None, reassign: false }),
        },
        &ShellType::Bash,
        false,
    );
    assert!(result.is_ok());
    assert!(!config.aliases.contains_key("rm"));
    assert!(config.aliases.contains_key("ls"));
}

#[test]
fn test_remove_group_with_reassign() {
    let mut config = remove_test_config();
    let result = handle_remove(
        &mut config,
        RemoveCommand {
            target: RemoveTarget::Group(GroupRemoveArgs {
                name: Some("files".to_string()),
                reassign: true,
            }),
        },
        &ShellType::Bash,
        false,
    );
    assert!(result.is_ok());
    assert!(!config.groups.contains_key("files"));
    assert!(config.aliases.contains_key("ls"));
    assert!(config.aliases.get("ls").unwrap().group.is_none());
}

#[test]
fn test_remove_all_with_confirmation() {
    let mut config = remove_test_config();
    let result = handle_remove_all(&mut config, true);
    assert!(result.is_ok());
    assert!(config.aliases.is_empty());
    assert_eq!(config.groups.len(), 0);
}

#[test]
fn test_remove_all_without_confirmation() {
    let mut config = remove_test_config();
    let result = handle_remove_all(&mut config, false);
    assert!(result.is_ok());
    assert!(!config.aliases.is_empty());
    assert!(config.groups.len() > 0);
}

#[test]
fn test_handle_init_bash_no_config() {
    let cmd = InitCommand { shell: ShellType::Bash, config: None };
    let output = handle_init(cmd);
    assert!(output.contains(&ShellType::Bash.display_name()));
    assert!(output.contains("__aliasmgr_cmd=$(type -P aliasmgr)"));
    assert!(output.contains("aliasmgr sync"));
}

#[test]
fn test_handle_init_zsh_no_config() {
    let cmd = InitCommand { shell: ShellType::Zsh, config: None };
    let output = handle_init(cmd);
    assert!(output.contains(&ShellType::Zsh.display_name()));
    assert!(output.contains("__aliasmgr_cmd=$(whence -p aliasmgr)"));
    assert!(output.contains("aliasmgr sync"));
}

#[test]
fn test_handle_init_with_config() {
    let path = "/config/path".to_string();
    let cmd = InitCommand { shell: ShellType::Bash, config: Some(path.clone()) };
    let output = handle_init(cmd);
    assert!(output.contains(&ShellType::Bash.display_name()));
    assert!(output.contains(&path));
    assert!(output.contains("aliasmgr sync"));
}

#[test]
fn test_handle_init_with_config_zsh() {
    let path = "/config/path".to_string();
    let cmd = InitCommand { shell: ShellType::Zsh, config: Some(path.clone()) };
    let output = handle_init(cmd);
    assert!(output.contains(&ShellType::Zsh.display_name()));
    assert!(output.contains(&path));
    assert!(output.contains("aliasmgr sync"));
}

#[test]
fn test_helper_shell_command() {
    assert_eq!(helper_shell_command(&ShellType::Bash), "type -P aliasmgr");
    assert_eq!(helper_shell_command(&ShellType::Zsh), "whence -p aliasmgr");
}

#[test]
fn test_shell_type_display() {
    assert_eq!(ShellType::Bash.display_name(), "BASH");
    assert_eq!(ShellType::Zsh.display_name(), "ZSH");
}

#[test]
fn test_parse_shell_names() {
    assert_eq!(parse_shell("ZSH"), Some(ShellType::Zsh));
    assert_eq!(parse_shell("zSh"), Some(ShellType::Zsh));
    assert_eq!(parse_shell("bash"), Some(ShellType::Bash));
    assert_eq!(parse_shell("BASH"), Some(ShellType::Bash));
    assert_eq!(parse_shell("INVALID_SHELL"), None);
}

#[test]
fn test_handle_add_alias_creates_missing_group_on_accept() {
    // the missing group is created enabled, the addition is retried once,
    // and the defining statement comes back
    let mut config = Config::new();
    let alias = Alias::new("git add".into(), Some("git".into()), true, false);
    let mut confirm = answers(false, true);
    let result = handle_add_alias(&mut config, "ga", &alias, &mut confirm);
    assert_eq!(
        result.unwrap(),
        Outcome::Command("alias -- 'ga'='git add'".to_string())
    );
    assert_eq!(config.groups.get("git"), Some(true));
    assert_eq!(config.aliases.get("ga"), Some(&alias));
}

#[test]
fn test_handle_add_alias_missing_group_declined() {
    let mut config = Config::new();
    let alias = Alias::new("git add".into(), Some("git".into()), true, false);
    let mut confirm = answers(false, false);
    let result = handle_add_alias(&mut config, "ga", &alias, &mut confirm);
    assert_eq!(result.unwrap(), Outcome::NoChanges);
    assert!(!config.groups.contains_key("git"));
    assert!(!config.aliases.contains_key("ga"));
}
