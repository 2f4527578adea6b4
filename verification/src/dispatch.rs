//! Top-level command handlers: validation, dispatch, and group-wide removal.

use vstd::prelude::*;

use crate::add::{add_group, alias_cmd, is_valid_alias_name, valid_alias_name};
use crate::commands::{
    AddCommand, AddTarget, DisableCommand, DisableTarget, EnableCommand, EnableTarget,
    RemoveCommand, RemoveTarget, RenameCommand, RenameTarget, SortCommand, SortTarget,
};
use crate::disable::{disable_alias, disable_group};
use crate::enable::{enable_alias, enable_group};
use crate::listing::{
    get_aliases_from_single_group, group_members, lemma_members_distinct, lemma_members_in_keys,
};
use crate::model::{has_key, key_index, opt_view, value_of, Alias, AliasV, Config};
use crate::outcome::{Failure, Outcome};
use crate::remove::{
    lemma_removable, remove_alias, remove_aliases, remove_all, remove_keys, unalias_join,
};
use crate::rename::{rename_alias, rename_group};
use crate::resolve::{handle_add_alias, Confirm};
use crate::shell::{shell_supports, ShellType};
use crate::sort::{sort_aliases_in_group, sort_all_aliases, sort_groups};

verus! {

/// Adds an alias or a group from the parsed command.
///
/// An alias must suit the shell (`UnsupportedGlobalAlias` otherwise) and
/// carry a name free of whitespace and `=` (`InvalidAliasName` otherwise);
/// it is then added through the collision- and group-recovery of
/// [`handle_add_alias`]. A group is added directly.
pub fn handle_add<C: Confirm>(
    config: &mut Config,
    cmd: AddCommand,
    shell: &ShellType,
    confirm: &mut C,
) -> (r: Result<Outcome, Failure>)
    requires
        old(config).wf(),
    ensures
        final(config).wf(),
        match cmd.target {
            AddTarget::Alias(args) => {
                let alias = AliasV {
                    command: args.command@,
                    group: opt_view(args.group),
                    enabled: !args.disabled,
                    detailed: args.disabled || args.global,
                    global: args.global,
                };
                match r {
                    Ok(o) => {
                        &&& shell_supports(args.global, *shell)
                        &&& valid_alias_name(args.name@)
                        &&& {
                            ||| {
                                &&& !has_key(old(config)@.aliases, args.name@)
                                &&& final(config)@.aliases =~= old(config)@.aliases.push(
                                    (args.name@, alias),
                                )
                                &&& o matches Outcome::Command(c) && c@ == alias_cmd(
                                    args.name@,
                                    alias,
                                )
                            }
                            ||| {
                                // a declined recovery: a question existed —
                                // the name was taken, or the group missing
                                &&& (has_key(old(config)@.aliases, args.name@) || (
                                alias.group matches Some(g) && !has_key(
                                    old(config)@.groups,
                                    g,
                                )))
                                &&& o == Outcome::NoChanges
                                &&& final(config)@ == old(config)@
                            }
                            ||| {
                                &&& has_key(old(config)@.aliases, args.name@)
                                &&& final(config)@.aliases =~= old(config)@.aliases.update(
                                    key_index(old(config)@.aliases, args.name@),
                                    (args.name@, alias),
                                )
                                &&& o matches Outcome::Command(c) && c@ == alias_cmd(
                                    args.name@,
                                    alias,
                                )
                            }
                        }
                    },
                    Err(e) => match e {
                        Failure::UnsupportedGlobalAlias => !shell_supports(args.global, *shell)
                            && final(config)@ == old(config)@,
                        Failure::InvalidAliasName => shell_supports(args.global, *shell)
                            && !valid_alias_name(args.name@) && final(config)@ == old(config)@,
                        _ => false,
                    },
                }
            },
            AddTarget::Group(args) => match r {
                Ok(o) => {
                    &&& !has_key(old(config)@.groups, args.name@)
                    &&& final(config)@.groups =~= old(config)@.groups.push(
                        (args.name@, !args.disabled),
                    )
                    &&& final(config)@.aliases == old(config)@.aliases
                    &&& o == Outcome::ConfigChanged
                },
                Err(e) => {
                    &&& e == Failure::GroupAlreadyExists
                    &&& has_key(old(config)@.groups, args.name@)
                    &&& final(config)@ == old(config)@
                },
            },
        },
{
    match cmd.target {
        AddTarget::Alias(args) => {
            if args.global && !matches!(shell, ShellType::Zsh) {
                return Err(Failure::UnsupportedGlobalAlias);
            }
            if !is_valid_alias_name(args.name.as_str()) {
                return Err(Failure::InvalidAliasName);
            }
            let new_alias = Alias::new(args.command, args.group, !args.disabled, args.global);
            handle_add_alias(config, args.name.as_str(), &new_alias, confirm)
        },
        AddTarget::Group(args) => add_group(config, args.name.as_str(), !args.disabled),
    }
}

/// Enables an alias or a group, per the target of the parsed command.
pub fn handle_enable(config: &mut Config, cmd: EnableCommand, shell: &ShellType) -> (r: Result<
    Outcome,
    Failure,
>)
    requires
        old(config).wf(),
        match cmd.target {
            EnableTarget::Alias(args) => has_key(old(config)@.aliases, args.name@) ==> match
                value_of(old(config)@.aliases, args.name@).group {
                Some(g) => has_key(old(config)@.groups, g),
                None => true,
            },
            EnableTarget::Group(_) => true,
        },
    ensures
        final(config).wf(),
        match cmd.target {
            EnableTarget::Alias(args) => match r {
                Ok(o) => {
                    &&& has_key(old(config)@.aliases, args.name@)
                    &&& ({
                        let a = value_of(old(config)@.aliases, args.name@);
                        let now = AliasV { enabled: true, detailed: a.global, ..a };
                        &&& final(config)@.aliases =~= old(config)@.aliases.update(
                            key_index(old(config)@.aliases, args.name@),
                            (args.name@, now),
                        )
                        &&& final(config)@.groups == old(config)@.groups
                        &&& match a.group {
                            Some(g) => if !value_of(old(config)@.groups, g) {
                                o == Outcome::ConfigChanged
                            } else {
                                o matches Outcome::Command(c) && c@ == alias_cmd(args.name@, now)
                            },
                            None => o matches Outcome::Command(c) && c@ == alias_cmd(
                                args.name@,
                                now,
                            ),
                        }
                    })
                },
                Err(e) => e == Failure::AliasDoesNotExist && !has_key(
                    old(config)@.aliases,
                    args.name@,
                ) && final(config)@ == old(config)@,
            },
            EnableTarget::Group(args) => match r {
                Ok(o) => {
                    &&& has_key(old(config)@.groups, args.name@)
                    &&& final(config)@.groups =~= old(config)@.groups.update(
                        key_index(old(config)@.groups, args.name@),
                        (args.name@, true),
                    )
                    &&& final(config)@.aliases == old(config)@.aliases
                    &&& ({
                        let cmds = crate::enable::enable_cmds(
                            old(config)@.aliases,
                            args.name@,
                            *shell,
                        );
                        if cmds.len() == 0 {
                            o == Outcome::ConfigChanged
                        } else {
                            o matches Outcome::Command(c) && c@ == cmds
                        }
                    })
                },
                Err(e) => e == Failure::GroupDoesNotExist && !has_key(
                    old(config)@.groups,
                    args.name@,
                ) && final(config)@ == old(config)@,
            },
        },
{
    match cmd.target {
        EnableTarget::Alias(args) => enable_alias(config, args.name.as_str()),
        EnableTarget::Group(args) => enable_group(config, args.name.as_str(), shell),
    }
}

/// Disables an alias or a group, per the target of the parsed command.
pub fn handle_disable(config: &mut Config, cmd: DisableCommand, shell: &ShellType) -> (r: Result<
    Outcome,
    Failure,
>)
    requires
        old(config).wf(),
        match cmd.target {
            DisableTarget::Alias(args) => has_key(old(config)@.aliases, args.name@) ==> match
                value_of(old(config)@.aliases, args.name@).group {
                Some(g) => has_key(old(config)@.groups, g),
                None => true,
            },
            DisableTarget::Group(_) => true,
        },
    ensures
        final(config).wf(),
        match cmd.target {
            DisableTarget::Alias(args) => match r {
                Ok(o) => {
                    &&& has_key(old(config)@.aliases, args.name@)
                    &&& ({
                        let a = value_of(old(config)@.aliases, args.name@);
                        if !a.enabled {
                            o == Outcome::NoChanges && final(config)@ == old(config)@
                        } else {
                            &&& final(config)@.aliases =~= old(config)@.aliases.update(
                                key_index(old(config)@.aliases, args.name@),
                                (args.name@, AliasV { enabled: false, detailed: true, ..a }),
                            )
                            &&& final(config)@.groups == old(config)@.groups
                            &&& match a.group {
                                Some(g) => if !value_of(old(config)@.groups, g) {
                                    o == Outcome::ConfigChanged
                                } else {
                                    o matches Outcome::Command(c) && c@
                                        == crate::remove::unalias_cmd(args.name@)
                                },
                                None => o matches Outcome::Command(c) && c@
                                    == crate::remove::unalias_cmd(args.name@),
                            }
                        }
                    })
                },
                Err(e) => e == Failure::AliasDoesNotExist && !has_key(
                    old(config)@.aliases,
                    args.name@,
                ) && final(config)@ == old(config)@,
            },
            DisableTarget::Group(args) => match r {
                Ok(o) => {
                    &&& has_key(old(config)@.groups, args.name@)
                    &&& ({
                        let was = value_of(old(config)@.groups, args.name@);
                        let cmds = crate::disable::disable_cmds(
                            old(config)@.aliases,
                            args.name@,
                            *shell,
                        );
                        if !was {
                            o == Outcome::NoChanges && final(config)@ == old(config)@
                        } else {
                            &&& final(config)@.groups =~= old(config)@.groups.update(
                                key_index(old(config)@.groups, args.name@),
                                (args.name@, false),
                            )
                            &&& final(config)@.aliases == old(config)@.aliases
                            &&& if cmds.len() == 0 {
                                o == Outcome::ConfigChanged
                            } else {
                                o matches Outcome::Command(c) && c@ == cmds
                            }
                        }
                    })
                },
                Err(e) => e == Failure::GroupDoesNotExist && !has_key(
                    old(config)@.groups,
                    args.name@,
                ) && final(config)@ == old(config)@,
            },
        },
{
    match cmd.target {
        DisableTarget::Alias(args) => disable_alias(config, args.name.as_str()),
        DisableTarget::Group(args) => disable_group(config, args.name.as_str(), shell),
    }
}

/// Renames an alias or a group, per the target of the parsed command.
pub fn handle_rename(config: &mut Config, cmd: RenameCommand) -> (r: Result<Outcome, Failure>)
    requires
        old(config).wf(),
    ensures
        final(config).wf(),
        match cmd.target {
            RenameTarget::Alias(args) => match r {
                Ok(o) => {
                    &&& has_key(old(config)@.aliases, args.old_name@)
                    &&& !has_key(old(config)@.aliases, args.new_name@)
                    &&& final(config)@.aliases =~= old(config)@.aliases.remove(
                        key_index(old(config)@.aliases, args.old_name@),
                    ).push((args.new_name@, value_of(old(config)@.aliases, args.old_name@)))
                    &&& final(config)@.groups == old(config)@.groups
                    &&& o matches Outcome::Command(c) && c@ == crate::remove::unalias_cmd(
                        args.old_name@,
                    ) + "\n"@ + alias_cmd(
                        args.new_name@,
                        value_of(old(config)@.aliases, args.old_name@),
                    )
                },
                Err(e) => match e {
                    Failure::AliasDoesNotExist => !has_key(old(config)@.aliases, args.old_name@)
                        && final(config)@ == old(config)@,
                    Failure::AliasAlreadyExists => has_key(old(config)@.aliases, args.old_name@)
                        && has_key(old(config)@.aliases, args.new_name@) && final(config)@ == old(
                    config)@,
                    Failure::GroupDoesNotExist => {
                        &&& has_key(old(config)@.aliases, args.old_name@)
                        &&& !has_key(old(config)@.aliases, args.new_name@)
                        &&& (value_of(old(config)@.aliases, args.old_name@).group matches Some(g)
                            && !has_key(old(config)@.groups, g))
                        &&& final(config)@.aliases =~= old(config)@.aliases.remove(
                            key_index(old(config)@.aliases, args.old_name@),
                        )
                        &&& final(config)@.groups == old(config)@.groups
                    },
                    _ => false,
                },
            },
            RenameTarget::Group(args) => match r {
                Ok(o) => {
                    &&& has_key(old(config)@.groups, args.old_name@)
                    &&& !has_key(old(config)@.groups, args.new_name@)
                    &&& final(config)@.groups =~= old(config)@.groups.remove(
                        key_index(old(config)@.groups, args.old_name@),
                    ).push((args.new_name@, value_of(old(config)@.groups, args.old_name@)))
                    &&& final(config)@.aliases =~= crate::rename::repoint_group(
                        old(config)@.aliases,
                        args.old_name@,
                        args.new_name@,
                    )
                    &&& o == Outcome::ConfigChanged
                },
                Err(e) => {
                    &&& final(config)@ == old(config)@
                    &&& match e {
                        Failure::GroupDoesNotExist => !has_key(
                            old(config)@.groups,
                            args.old_name@,
                        ),
                        Failure::GroupAlreadyExists => has_key(old(config)@.groups, args.old_name@)
                            && has_key(old(config)@.groups, args.new_name@),
                        _ => false,
                    }
                },
            },
        },
{
    match cmd.target {
        RenameTarget::Alias(args) => rename_alias(
            config,
            args.old_name.as_str(),
            args.new_name.as_str(),
        ),
        RenameTarget::Group(args) => rename_group(
            config,
            args.old_name.as_str(),
            args.new_name.as_str(),
        ),
    }
}

/// Sorts aliases — all of them, or one group's scope — or the groups.
pub fn handle_sort(config: &mut Config, cmd: SortCommand) -> (r: Result<Outcome, Failure>)
    requires
        old(config).wf(),
    ensures
        final(config).wf(),
        match r {
            Ok(o) => o == Outcome::ConfigChanged,
            Err(e) => e == Failure::GroupDoesNotExist && final(config)@ == old(config)@ && (
            cmd.target matches SortTarget::Aliases(args) && (args.group matches Some(g)
                && !has_key(old(config)@.groups, g@))),
        },
        match cmd.target {
            SortTarget::Aliases(args) => match args.group {
                None => r is Ok && final(config)@.groups == old(config)@.groups
                    && crate::sort::same_assoc(old(config)@.aliases, final(config)@.aliases) && (
                forall|i: int, j: int|
                    0 <= i < j < final(config)@.aliases.len() ==> crate::sort::name_le(
                        (#[trigger] final(config)@.aliases[i]).0,
                        (#[trigger] final(config)@.aliases[j]).0,
                    )),
                Some(gname) => {
                    &&& (has_key(old(config)@.groups, gname@) ==> r is Ok)
                    &&& (r is Ok ==> {
                        &&& final(config)@.groups == old(config)@.groups
                        &&& final(config)@.aliases.len() == old(config)@.aliases.len()
                        &&& crate::sort::same_assoc(
                            old(config)@.aliases,
                            final(config)@.aliases,
                        )
                        &&& forall|i: int|
                            0 <= i < old(config)@.aliases.len() && !crate::sort::in_grp(
                                #[trigger] old(config)@.aliases[i],
                                Some(gname@),
                            ) ==> final(config)@.aliases[i] == old(config)@.aliases[i]
                        &&& forall|i: int|
                            0 <= i < old(config)@.aliases.len() ==> (crate::sort::in_grp(
                                #[trigger] final(config)@.aliases[i],
                                Some(gname@),
                            ) == crate::sort::in_grp(old(config)@.aliases[i], Some(gname@)))
                        &&& forall|i: int, j: int|
                            0 <= i < j < final(config)@.aliases.len() && crate::sort::in_grp(
                                #[trigger] final(config)@.aliases[i],
                                Some(gname@),
                            ) && crate::sort::in_grp(
                                #[trigger] final(config)@.aliases[j],
                                Some(gname@),
                            ) ==> crate::sort::name_le(
                                final(config)@.aliases[i].0,
                                final(config)@.aliases[j].0,
                            )
                    })
                },
            },
            SortTarget::Groups => r is Ok && final(config)@.aliases == old(config)@.aliases
                && crate::sort::same_assoc(old(config)@.groups, final(config)@.groups) && (
            forall|i: int, j: int|
                0 <= i < j < final(config)@.groups.len() ==> crate::sort::name_le(
                    (#[trigger] final(config)@.groups[i]).0,
                    (#[trigger] final(config)@.groups[j]).0,
                )),
        },
{
    match &cmd.target {
        SortTarget::Aliases(args) => {
            if let Some(group) = &args.group {
                sort_aliases_in_group(config, Some(group.as_str()))
            } else {
                sort_all_aliases(config)
            }
        },
        SortTarget::Groups => sort_groups(config),
    }
}

/// Clears the whole configuration when the caller confirmed, else nothing.
pub fn handle_remove_all(config: &mut Config, confirmed: bool) -> (r: Result<Outcome, Failure>)
    requires
        old(config).wf(),
    ensures
        final(config).wf(),
        match r {
            Ok(o) => if confirmed {
                &&& final(config)@.aliases =~= Seq::<(Seq<char>, AliasV)>::empty()
                &&& final(config)@.groups =~= Seq::<(Seq<char>, bool)>::empty()
                &&& o matches Outcome::Command(c) && c@ == "unalias -a"@
            } else {
                o == Outcome::NoChanges && final(config)@ == old(config)@
            },
            Err(_) => false,
        },
{
    if confirmed {
        remove_all(config)
    } else {
        Ok(Outcome::NoChanges)
    }
}

/// The alias entries with every shell-visible member of group `g` moved out
/// of any group; members the shell cannot take are left pointing at the
/// vanished group.
pub open spec fn reassigned_members(
    s: Seq<(Seq<char>, AliasV)>,
    g: Seq<char>,
    shell: ShellType,
) -> Seq<(Seq<char>, AliasV)> {
    s.map_values(
        |p: (Seq<char>, AliasV)|
            (
                p.0,
                if p.1.group == Some(g) && shell_supports(p.1.global, shell) {
                    AliasV { group: None, ..p.1 }
                } else {
                    p.1
                },
            ),
    )
}

/// Removes an alias, a group, the ungrouped aliases, or everything.
///
/// Removing a named group also removes its shell-visible member aliases,
/// unless `reassign` asks to keep them as ungrouped aliases instead; an
/// absent group name removes the ungrouped aliases themselves.
pub fn handle_remove(
    config: &mut Config,
    cmd: RemoveCommand,
    shell: &ShellType,
    remove_all_confirmed: bool,
) -> (r: Result<Outcome, Failure>)
    requires
        old(config).wf(),
    ensures
        final(config).wf(),
        match cmd.target {
            RemoveTarget::Alias(args) => match r {
                Ok(o) => has_key(old(config)@.aliases, args.name@) && final(config)@.aliases
                    =~= old(config)@.aliases.remove(key_index(old(config)@.aliases, args.name@))
                    && final(config)@.groups == old(config)@.groups && (
                o matches Outcome::Command(c) && c@ == crate::remove::unalias_cmd(args.name@)),
                Err(e) => e == Failure::AliasDoesNotExist && !has_key(
                    old(config)@.aliases,
                    args.name@,
                ) && final(config)@ == old(config)@,
            },
            RemoveTarget::Group(args) => match args.name {
                Some(name) => match r {
                    Ok(o) => {
                        &&& has_key(old(config)@.groups, name@)
                        &&& final(config)@.groups =~= old(config)@.groups.remove(
                            key_index(old(config)@.groups, name@),
                        )
                        &&& if args.reassign {
                            final(config)@.aliases =~= reassigned_members(
                                old(config)@.aliases,
                                name@,
                                *shell,
                            ) && o == Outcome::ConfigChanged
                        } else {
                            ({
                                let members = group_members(
                                    old(config)@.aliases,
                                    Some(name@),
                                    *shell,
                                );
                                final(config)@.aliases =~= remove_keys(
                                    old(config)@.aliases,
                                    members,
                                ) && (o matches Outcome::Command(c) && c@ == unalias_join(
                                    members,
                                ))
                            })
                        }
                    },
                    Err(e) => e == Failure::GroupDoesNotExist && !has_key(
                        old(config)@.groups,
                        name@,
                    ) && final(config)@ == old(config)@,
                },
                None => match r {
                    Ok(o) => ({
                        let members = group_members(old(config)@.aliases, None, *shell);
                        &&& final(config)@.aliases =~= remove_keys(old(config)@.aliases, members)
                        &&& final(config)@.groups == old(config)@.groups
                        &&& o matches Outcome::Command(c) && c@ == unalias_join(members)
                    }),
                    Err(_) => false,
                },
            },
            RemoveTarget::All => match r {
                Ok(o) => if remove_all_confirmed {
                    final(config)@.aliases =~= Seq::<(Seq<char>, AliasV)>::empty() && final(config)@.groups =~= Seq::<(Seq<char>, bool)>::empty() && (
                    o matches Outcome::Command(c) && c@ == "unalias -a"@)
                } else {
                    o == Outcome::NoChanges && final(config)@ == old(config)@
                },
                Err(_) => false,
            },
        },
{
    match cmd.target {
        RemoveTarget::Alias(args) => remove_alias(config, args.name.as_str()),
        RemoveTarget::Group(args) => {
            match &args.name {
                Some(name) => {
                    let members = match get_aliases_from_single_group(
                        config,
                        Some(name.as_str()),
                        shell,
                    ) {
                        Ok(v) => v,
                        Err(e) => {
                            return Err(e);
                        },
                    };
                    match crate::remove::remove_group(config, name.as_str()) {
                        Ok(_) => {},
                        Err(_) => {
                            proof {
                                assert(false);
                            }
                            return Err(Failure::UnexpectedBehavior);
                        },
                    }
                    if args.reassign {
                        let ghost groups_done = config@.groups;
                        let ghost target = reassigned_members(
                            old(config)@.aliases,
                            name@,
                            *shell,
                        );
                        let n = config.aliases.len();
                        let mut i: usize = 0;
                        while i < n
                            invariant
                                config.wf(),
                                n == config@.aliases.len(),
                                i <= n,
                                target == reassigned_members(
                                    old(config)@.aliases,
                                    name@,
                                    *shell,
                                ),
                                target.len() == n,
                                config@.groups == groups_done,
                                forall|j: int| 0 <= j < i ==> config@.aliases[j] == target[j],
                                forall|j: int|
                                    i <= j < n ==> config@.aliases[j] == old(config)@.aliases[j],
                            decreases n - i,
                        {
                            let a = config.aliases.val_at(i);
                            let member = match &a.group {
                                Some(g) => crate::model::str_eq(g.as_str(), name.as_str()),
                                None => false,
                            };
                            let supported = !(a.global && *shell != ShellType::Zsh);
                            if member && supported {
                                let mut moved = config.aliases.val_at(i).clone();
                                moved.group = None;
                                config.aliases.set_val_at(i, moved);
                            }
                            i = i + 1;
                        }
                        proof {
                            assert(config@.aliases =~= target);
                        }
                        Ok(Outcome::ConfigChanged)
                    } else {
                        proof {
                            lemma_members_in_keys(old(config)@.aliases, Some(name@), *shell);
                            lemma_members_distinct(old(config)@.aliases, Some(name@), *shell);
                            lemma_removable(
                                old(config)@.aliases,
                                group_members(old(config)@.aliases, Some(name@), *shell),
                            );
                        }
                        match remove_aliases(config, &members) {
                            Ok(o) => Ok(o),
                            Err(_) => {
                                proof {
                                    assert(false);
                                }
                                Err(Failure::UnexpectedBehavior)
                            },
                        }
                    }
                },
                None => {
                    let members = match get_aliases_from_single_group(config, None, shell) {
                        Ok(v) => v,
                        Err(_) => {
                            proof {
                                assert(false);
                            }
                            return Err(Failure::UnexpectedBehavior);
                        },
                    };
                    proof {
                        lemma_members_in_keys(old(config)@.aliases, None, *shell);
                        lemma_members_distinct(old(config)@.aliases, None, *shell);
                        lemma_removable(
                            old(config)@.aliases,
                            group_members(old(config)@.aliases, None, *shell),
                        );
                    }
                    match remove_aliases(config, &members) {
                        Ok(o) => Ok(o),
                        Err(_) => {
                            proof {
                                assert(false);
                            }
                            Err(Failure::UnexpectedBehavior)
                        },
                    }
                },
            }
        },
        RemoveTarget::All => handle_remove_all(config, remove_all_confirmed),
    }
}

} // verus!
