//! The parsed commands the library acts on.
//!
//! Argument parsing itself lives outside the library; these types carry what
//! it produced.

use vstd::prelude::*;

use crate::shell::ShellType;

verus! {

#[derive(Debug)]
pub struct AddAliasArgs {
    pub name: String,
    pub command: String,
    pub group: Option<String>,
    pub disabled: bool,
    pub global: bool,
}

#[derive(Debug)]
pub struct AddGroupArgs {
    pub name: String,
    pub disabled: bool,
}

#[derive(Debug)]
pub enum AddTarget {
    Alias(AddAliasArgs),
    Group(AddGroupArgs),
}

#[derive(Debug)]
pub struct AddCommand {
    pub target: AddTarget,
}

#[derive(Debug)]
pub struct RemoveAliasArgs {
    pub name: String,
}

#[derive(Debug)]
pub struct GroupRemoveArgs {
    pub name: Option<String>,
    pub reassign: bool,
}

#[derive(Debug)]
pub enum RemoveTarget {
    Alias(RemoveAliasArgs),
    Group(GroupRemoveArgs),
    All,
}

#[derive(Debug)]
pub struct RemoveCommand {
    pub target: RemoveTarget,
}

#[derive(Debug)]
pub struct ListCommand {
    pub pattern: Option<String>,
    pub group: Option<Option<String>>,
    pub enabled: bool,
    pub disabled: bool,
    pub global: bool,
}

#[derive(Debug)]
pub struct EnableArgs {
    pub name: String,
}

#[derive(Debug)]
pub enum EnableTarget {
    Alias(EnableArgs),
    Group(EnableArgs),
}

#[derive(Debug)]
pub struct EnableCommand {
    pub target: EnableTarget,
}

#[derive(Debug)]
pub struct DisableArgs {
    pub name: String,
}

#[derive(Debug)]
pub enum DisableTarget {
    Alias(DisableArgs),
    Group(DisableArgs),
}

#[derive(Debug)]
pub struct DisableCommand {
    pub target: DisableTarget,
}

#[derive(Debug)]
pub struct RenameArgs {
    pub old_name: String,
    pub new_name: String,
}

#[derive(Debug)]
pub enum RenameTarget {
    Alias(RenameArgs),
    Group(RenameArgs),
}

#[derive(Debug)]
pub struct RenameCommand {
    pub target: RenameTarget,
}

#[derive(Debug)]
pub struct EditCommand {
    pub name: String,
    pub new_command: String,
    pub toggle_enable: bool,
    pub toggle_global: bool,
    pub group: Option<Option<String>>,
}

#[derive(Debug)]
pub struct MoveCommand {
    pub name: String,
    pub new_group: Option<String>,
}

#[derive(Debug)]
pub struct SortAliasesArgs {
    pub group: Option<String>,
}

#[derive(Debug)]
pub enum SortTarget {
    Aliases(SortAliasesArgs),
    Groups,
}

#[derive(Debug)]
pub struct SortCommand {
    pub target: SortTarget,
}

#[derive(Debug)]
pub struct InitCommand {
    pub shell: ShellType,
    pub config: Option<String>,
}

#[derive(Debug)]
pub struct ConvertCommand {
    pub source: String,
    pub target: Option<String>,
}

/// The whole parsed invocation.
#[derive(Debug)]
pub enum Commands {
    Add(AddCommand),
    Remove(RemoveCommand),
    List(ListCommand),
    Enable(EnableCommand),
    Disable(DisableCommand),
    Rename(RenameCommand),
    Edit(EditCommand),
    Move(MoveCommand),
    Sort(SortCommand),
    Sync,
    Convert(ConvertCommand),
    Init(InitCommand),
}

#[derive(Debug)]
pub struct Cli {
    pub verbose: bool,
    pub quiet: bool,
    pub debug: bool,
    pub command: Commands,
}

} // verus!
