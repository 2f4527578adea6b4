//! Conflict recovery around the core operations.
//!
//! Each operation here retries a core operation at most once after resolving
//! a recoverable conflict — a taken alias name, a missing group — through an
//! injected confirmation capability. What the capability answers is outside
//! the library, so the contracts state what holds for either answer.

use vstd::prelude::*;

use crate::add::{add_alias, add_group, alias_cmd};
use crate::commands::{EditCommand, MoveCommand};
use crate::edit::edit_alias;
use crate::model::{has_key, key_index, value_of, Alias, Config};
use crate::outcome::{Failure, Outcome};
use crate::relocate::move_alias;
use crate::style::format_alias_info;

verus! {

/// The confirmation capability: a yes/no answer to each recovery question.
/// Its answers are entirely up to the implementation.
pub trait Confirm {
    /// May the alias described by `context` be overwritten?
    fn confirm_overwrite(&mut self, context: &str) -> bool;

    /// May the missing group `name` be created?
    fn confirm_create_group(&mut self, name: &str) -> bool;
}

/// Creates the missing group when the caller agreed, as an always-enabled
/// group; a declined creation changes nothing.
pub fn handle_create_non_existent_group(config: &mut Config, name: &str, create: bool) -> (r:
    Result<Outcome, Failure>)
    requires
        old(config).wf(),
    ensures
        final(config).wf(),
        match r {
            Ok(o) => if create {
                &&& !has_key(old(config)@.groups, name@)
                &&& final(config)@.groups =~= old(config)@.groups.push((name@, true))
                &&& final(config)@.aliases == old(config)@.aliases
                &&& o == Outcome::ConfigChanged
            } else {
                o == Outcome::NoChanges && final(config)@ == old(config)@
            },
            Err(e) => {
                &&& create
                &&& e == Failure::GroupAlreadyExists
                &&& has_key(old(config)@.groups, name@)
                &&& final(config)@ == old(config)@
            },
        },
{
    if create {
        add_group(config, name, true)
    } else {
        Ok(Outcome::NoChanges)
    }
}

/// Overwrites an existing alias after the caller agreed, moving it first
/// when the replacement names another group and asking to create that group
/// when it is missing.
///
/// A declined overwrite changes nothing. When the move hits a missing group
/// the capability is asked once; on agreement the group is created enabled
/// and the move retried once, on refusal nothing at all happens and the
/// whole overwrite answers `NoChanges`.
pub fn handle_overwrite_existing_alias<C: Confirm>(
    config: &mut Config,
    name: &str,
    alias: &Alias,
    overwrite: bool,
    confirm: &mut C,
) -> (r: Result<Outcome, Failure>)
    requires
        old(config).wf(),
        has_key(old(config)@.aliases, name@),
    ensures
        final(config).wf(),
        match r {
            Ok(o) => if !overwrite {
                o == Outcome::NoChanges && final(config)@ == old(config)@
            } else {
                ||| {
                    // the overwrite went through
                    &&& final(config)@.aliases =~= old(config)@.aliases.update(
                        key_index(old(config)@.aliases, name@),
                        (name@, alias@),
                    )
                    &&& (final(config)@.groups == old(config)@.groups || (
                    alias@.group matches Some(g) && !has_key(old(config)@.groups, g) && final(config)@.groups =~= old(config)@.groups.push((g, true))))
                    &&& o matches Outcome::Command(c) && c@ == alias_cmd(name@, alias@)
                }
                ||| {
                    // the needed move hit a missing group and its creation
                    // was declined: nothing happened
                    &&& (alias@.group matches Some(g) && !has_key(old(config)@.groups, g))
                    &&& value_of(old(config)@.aliases, name@).group != alias@.group
                    &&& o == Outcome::NoChanges
                    &&& final(config)@ == old(config)@
                }
            },
            Err(e) => false,
        },
{
    if !overwrite {
        return Ok(Outcome::NoChanges);
    }
    let ghost i0 = key_index(old(config)@.aliases, name@);
    let current_group: Option<String> = match config.aliases.get(name) {
        Some(a) => match &a.group {
            Some(g) => Some(g.clone()),
            None => None,
        },
        None => {
            proof {
                assert(false);
            }
            return Err(Failure::UnexpectedBehavior);
        },
    };
    proof {
        assert(crate::model::opt_view(current_group) == value_of(
            old(config)@.aliases,
            name@,
        ).group);
    }
    let same_group = match (&alias.group, &current_group) {
        (Some(a), Some(b)) => crate::model::str_eq(a.as_str(), b.as_str()),
        (None, None) => true,
        _ => false,
    };
    if !same_group {
        match move_alias(config, name, &alias.group) {
            Ok(_) => {},
            Err(Failure::GroupDoesNotExist) => {
                let group_name = match &alias.group {
                    Some(g) => g.clone(),
                    None => {
                        proof {
                            assert(false);
                        }
                        return Err(Failure::UnexpectedBehavior);
                    },
                };
                let create = confirm.confirm_create_group(group_name.as_str());
                match handle_create_non_existent_group(config, group_name.as_str(), create) {
                    Ok(Outcome::ConfigChanged) => {},
                    Ok(_) => {
                        // the creation was declined: leave everything as it
                        // was and report that nothing happened
                        return Ok(Outcome::NoChanges);
                    },
                    Err(_) => {
                        proof {
                            assert(false);
                        }
                        return Err(Failure::UnexpectedBehavior);
                    },
                }
                // Retry the move exactly once; the group is there now, so
                // it cannot fail again.
                match move_alias(config, name, &alias.group) {
                    Ok(_) => {},
                    Err(e) => {
                        proof {
                            let pushed = old(config)@.groups.push((group_name@, true));
                            assert(pushed[old(config)@.groups.len() as int].0 == group_name@);
                            assert(has_key(pushed, group_name@));
                            assert(false);
                        }
                        return Err(e);
                    },
                }
            },
            Err(_) => {
                proof {
                    assert(false);
                }
                return Err(Failure::UnexpectedBehavior);
            },
        }
    }
    proof {
        crate::model::lemma_key_index(config@.aliases, name@, i0);
    }
    let r = edit_alias(config, name, alias);
    proof {
        if r is Ok {
            assert(config@.aliases =~= old(config)@.aliases.update(i0, (name@, alias@)));
        }
    }
    r
}

/// Adds an alias, recovering a taken name by asking to overwrite and a
/// missing group by asking to create it (enabled), each retried once.
///
/// A declined recovery yields `NoChanges`; an accepted overwrite may itself
/// recover a missing group as in [`handle_overwrite_existing_alias`].
pub fn handle_add_alias<C: Confirm>(
    config: &mut Config,
    name: &str,
    alias: &Alias,
    confirm: &mut C,
) -> (r: Result<Outcome, Failure>)
    requires
        old(config).wf(),
    ensures
        final(config).wf(),
        match r {
            Ok(o) => {
                ||| {
                    // a fresh name: added, possibly after creating its group
                    &&& !has_key(old(config)@.aliases, name@)
                    &&& final(config)@.aliases =~= old(config)@.aliases.push((name@, alias@))
                    &&& (final(config)@.groups == old(config)@.groups || (
                    alias@.group matches Some(g) && !has_key(old(config)@.groups, g) && final(config)@.groups =~= old(config)@.groups.push((g, true))))
                    &&& o matches Outcome::Command(c) && c@ == alias_cmd(name@, alias@)
                }
                ||| {
                    // a declined recovery: there was a question to ask —
                    // the name was taken, or the group missing — and
                    // nothing happened
                    &&& (has_key(old(config)@.aliases, name@) || (
                    alias@.group matches Some(g) && !has_key(old(config)@.groups, g)))
                    &&& o == Outcome::NoChanges
                    &&& final(config)@ == old(config)@
                }
                ||| {
                    // an accepted overwrite of the taken name
                    &&& has_key(old(config)@.aliases, name@)
                    &&& final(config)@.aliases =~= old(config)@.aliases.update(
                        key_index(old(config)@.aliases, name@),
                        (name@, alias@),
                    )
                    &&& (final(config)@.groups == old(config)@.groups || (
                    alias@.group matches Some(g) && !has_key(old(config)@.groups, g) && final(config)@.groups =~= old(config)@.groups.push((g, true))))
                    &&& o matches Outcome::Command(c) && c@ == alias_cmd(name@, alias@)
                }
            },
            Err(e) => false,
        },
{
    match add_alias(config, name, alias) {
        Ok(outcome) => Ok(outcome),
        Err(Failure::AliasAlreadyExists) => {
            let alias_info = match format_alias_info(config, name) {
                Ok(s) => s,
                Err(_) => {
                    proof {
                        assert(false);
                    }
                    return Err(Failure::UnexpectedBehavior);
                },
            };
            let overwrite = confirm.confirm_overwrite(alias_info.as_str());
            handle_overwrite_existing_alias(config, name, alias, overwrite, confirm)
        },
        Err(Failure::GroupDoesNotExist) => {
            let group_name = match &alias.group {
                Some(g) => g.clone(),
                None => {
                    proof {
                        assert(false);
                    }
                    return Err(Failure::UnexpectedBehavior);
                },
            };
            let create = confirm.confirm_create_group(group_name.as_str());
            match handle_create_non_existent_group(config, group_name.as_str(), create) {
                Ok(Outcome::ConfigChanged) => {
                    // Retry the addition exactly once, now that the group is
                    // there.
                    match add_alias(config, name, alias) {
                        Ok(outcome) => Ok(outcome),
                        Err(_) => {
                            proof {
                                let pushed = old(config)@.groups.push((group_name@, true));
                                assert(pushed[old(config)@.groups.len() as int].0 == group_name@);
                                assert(has_key(pushed, group_name@));
                                assert(false);
                            }
                            Err(Failure::UnexpectedBehavior)
                        },
                    }
                },
                Ok(_) => Ok(Outcome::NoChanges),
                Err(_) => {
                    proof {
                        assert(false);
                    }
                    Err(Failure::UnexpectedBehavior)
                },
            }
        },
        Err(_) => {
            proof {
                assert(false);
            }
            Err(Failure::UnexpectedBehavior)
        },
    }
}

/// Creates the missing group (enabled) and retries the move once when the
/// caller agreed; a refusal leaves everything as it was.
pub fn handle_non_existing_group(
    config: &mut Config,
    alias: &str,
    group: &str,
    create: bool,
) -> (r: Result<Outcome, Failure>)
    requires
        old(config).wf(),
        has_key(old(config)@.aliases, alias@),
        !has_key(old(config)@.groups, group@),
    ensures
        final(config).wf(),
        match r {
            Ok(o) => if create {
                &&& final(config)@.groups =~= old(config)@.groups.push((group@, true))
                &&& final(config)@.aliases =~= old(config)@.aliases.update(
                    key_index(old(config)@.aliases, alias@),
                    (
                        alias@,
                        crate::model::AliasV {
                            group: Some(group@),
                            ..value_of(old(config)@.aliases, alias@)
                        },
                    ),
                )
                &&& o == Outcome::ConfigChanged
            } else {
                o == Outcome::NoChanges && final(config)@ == old(config)@
            },
            Err(_) => false,
        },
{
    if create {
        match add_group(config, group, true) {
            Ok(_) => {},
            Err(e) => {
                proof {
                    assert(false);
                }
                return Err(e);
            },
        }
        let target = Some(group.to_owned());
        match move_alias(config, alias, &target) {
            Ok(o) => Ok(o),
            Err(e) => {
                proof {
                    let pushed = old(config)@.groups.push((group@, true));
                    assert(pushed[old(config)@.groups.len() as int].0 == group@);
                    assert(has_key(pushed, group@));
                    assert(false);
                }
                Err(e)
            },
        }
    } else {
        Ok(Outcome::NoChanges)
    }
}

/// Moves an alias, recovering a missing target group by asking to create it,
/// with one retry.
pub fn handle_move<C: Confirm>(config: &mut Config, cmd: MoveCommand, confirm: &mut C) -> (r:
    Result<Outcome, Failure>)
    requires
        old(config).wf(),
    ensures
        final(config).wf(),
        match r {
            Ok(o) => {
                ||| {
                    // the move went through, to an existing group or out of
                    // any group; with a created group its entry is appended
                    &&& has_key(old(config)@.aliases, cmd.name@)
                    &&& final(config)@.aliases =~= old(config)@.aliases.update(
                        key_index(old(config)@.aliases, cmd.name@),
                        (
                            cmd.name@,
                            crate::model::AliasV {
                                group: crate::model::opt_view(cmd.new_group),
                                ..value_of(old(config)@.aliases, cmd.name@)
                            },
                        ),
                    )
                    &&& (final(config)@.groups == old(config)@.groups || (
                    crate::model::opt_view(cmd.new_group) matches Some(g) && !has_key(
                        old(config)@.groups,
                        g,
                    ) && final(config)@.groups =~= old(config)@.groups.push((g, true))))
                    &&& o == Outcome::ConfigChanged
                }
                ||| {
                    // the target group was missing and its creation was
                    // declined: nothing happened
                    &&& has_key(old(config)@.aliases, cmd.name@)
                    &&& (crate::model::opt_view(cmd.new_group) matches Some(g) && !has_key(
                        old(config)@.groups,
                        g,
                    ))
                    &&& o == Outcome::NoChanges
                    &&& final(config)@ == old(config)@
                }
            },
            Err(e) => {
                &&& e == Failure::AliasDoesNotExist
                &&& !has_key(old(config)@.aliases, cmd.name@)
                &&& final(config)@ == old(config)@
            },
        },
{
    match move_alias(config, &cmd.name, &cmd.new_group) {
        Ok(outcome) => Ok(outcome),
        Err(Failure::GroupDoesNotExist) => {
            let group_name = match &cmd.new_group {
                Some(g) => g.clone(),
                None => {
                    proof {
                        assert(false);
                    }
                    return Err(Failure::UnexpectedBehavior);
                },
            };
            let create = confirm.confirm_create_group(group_name.as_str());
            handle_non_existing_group(config, cmd.name.as_str(), group_name.as_str(), create)
        },
        Err(e) => {
            proof {
                assert(e == Failure::AliasDoesNotExist);
            }
            Err(e)
        },
    }
}

/// Creates a group the edit needs when the caller agreed; a refusal surfaces
/// the missing group.
pub fn handle_nonexistent_group(config: &mut Config, group_name: &str, create: bool) -> (r: Result<
    (),
    Failure,
>)
    requires
        old(config).wf(),
        !has_key(old(config)@.groups, group_name@),
    ensures
        final(config).wf(),
        match r {
            Ok(u) => {
                &&& create
                &&& final(config)@.groups =~= old(config)@.groups.push((group_name@, true))
                &&& final(config)@.aliases == old(config)@.aliases
            },
            Err(e) => {
                &&& !create
                &&& e == Failure::GroupDoesNotExist
                &&& final(config)@ == old(config)@
            },
        },
{
    if create {
        config.groups.insert(group_name.to_owned(), true);
        Ok(())
    } else {
        Err(Failure::GroupDoesNotExist)
    }
}

/// Rewrites an alias from an edit command: the command is replaced, the
/// enabled and global flags optionally toggled (with the detailed mark
/// re-derived), and the group optionally reassigned, asking to create a
/// missing target group.
///
/// Fails with `AliasDoesNotExist` on an unknown alias and with
/// `GroupDoesNotExist` when a needed group creation was declined.
pub fn handle_edit<C: Confirm>(config: &mut Config, cmd: EditCommand, confirm: &mut C) -> (r:
    Result<Outcome, Failure>)
    requires
        old(config).wf(),
    ensures
        final(config).wf(),
        match r {
            Ok(o) => {
                &&& has_key(old(config)@.aliases, cmd.name@)
                &&& ({
                    let a0 = value_of(old(config)@.aliases, cmd.name@);
                    let enabled = if cmd.toggle_enable {
                        !a0.enabled
                    } else {
                        a0.enabled
                    };
                    let global = if cmd.toggle_global {
                        !a0.global
                    } else {
                        a0.global
                    };
                    let group = match cmd.group {
                        Some(g) => crate::model::opt_view(g),
                        None => a0.group,
                    };
                    let now = crate::model::AliasV {
                        command: cmd.new_command@,
                        group,
                        enabled,
                        detailed: !enabled || global,
                        global,
                    };
                    &&& final(config)@.aliases =~= old(config)@.aliases.update(
                        key_index(old(config)@.aliases, cmd.name@),
                        (cmd.name@, now),
                    )
                    &&& (final(config)@.groups == old(config)@.groups || (
                    group matches Some(g) && !has_key(old(config)@.groups, g) && final(config)@.groups =~= old(config)@.groups.push((g, true))))
                    &&& o matches Outcome::Command(c) && c@ == alias_cmd(cmd.name@, now)
                })
            },
            Err(e) => {
                &&& final(config)@ == old(config)@
                &&& match e {
                    Failure::AliasDoesNotExist => !has_key(old(config)@.aliases, cmd.name@),
                    Failure::GroupDoesNotExist => has_key(old(config)@.aliases, cmd.name@) && (
                    match cmd.group {
                        Some(g) => crate::model::opt_view(g) matches Some(gn) && !has_key(
                            old(config)@.groups,
                            gn,
                        ),
                        None => false,
                    }),
                    _ => false,
                }
            },
        },
{
    let old_alias = match config.aliases.get(cmd.name.as_str()) {
        Some(a) => a.clone(),
        None => {
            return Err(Failure::AliasDoesNotExist);
        },
    };
    let enabled = if cmd.toggle_enable {
        !old_alias.enabled
    } else {
        old_alias.enabled
    };
    let global = if cmd.toggle_global {
        !old_alias.global
    } else {
        old_alias.global
    };
    let group: Option<String> = match cmd.group {
        Some(g) => {
            if let Some(group_name) = &g {
                if !config.groups.contains_key(group_name.as_str()) {
                    let create = confirm.confirm_create_group(group_name.as_str());
                    match handle_nonexistent_group(config, group_name.as_str(), create) {
                        Ok(_) => {},
                        Err(e) => {
                            return Err(e);
                        },
                    }
                }
            }
            g
        },
        None => old_alias.group,
    };
    let new_alias = Alias::new(cmd.new_command, group, enabled, global);
    edit_alias(config, cmd.name.as_str(), &new_alias)
}

} // verus!
