//! Disabling aliases and groups.

use vstd::prelude::*;
use vstd::string::StringExecFns;

use crate::listing::in_scope;
use crate::model::{has_key, key_index, lemma_key_index, value_of, AliasV, Config};
use crate::outcome::{Failure, Outcome};
use crate::remove::{unalias_cmd, unalias_str};
use crate::shell::ShellType;

verus! {

/// The statements dropping the currently enabled members of group `g` from
/// the shell, in stored alias order, one per line.
pub open spec fn disable_cmds(s: Seq<(Seq<char>, AliasV)>, g: Seq<char>, shell: ShellType) -> Seq<
    char,
>
    decreases s.len(),
{
    if s.len() == 0 {
        Seq::<char>::empty()
    } else {
        disable_cmds(s.drop_last(), g, shell) + if in_scope(s.last(), Some(g), shell)
            && s.last().1.enabled {
            unalias_cmd(s.last().0) + "\n"@
        } else {
            Seq::<char>::empty()
        }
    }
}

/// Turns one alias off.
///
/// An already-disabled alias is left alone (`NoChanges`). Otherwise the
/// alias is re-marked detailed alongside the flag; if its group is currently
/// disabled the alias was never shell-visible, so only the configuration
/// changed, else the dropping statement is returned.
///
/// Fails with `AliasDoesNotExist` when the name is unknown. The alias's
/// group, if any, must be present.
pub fn disable_alias(config: &mut Config, name: &str) -> (r: Result<Outcome, Failure>)
    requires
        old(config).wf(),
        has_key(old(config)@.aliases, name@) ==> match value_of(
            old(config)@.aliases,
            name@,
        ).group {
            Some(g) => has_key(old(config)@.groups, g),
            None => true,
        },
    ensures
        final(config).wf(),
        match r {
            Ok(o) => {
                &&& has_key(old(config)@.aliases, name@)
                &&& ({
                    let a = value_of(old(config)@.aliases, name@);
                    if !a.enabled {
                        o == Outcome::NoChanges && final(config)@ == old(config)@
                    } else {
                        &&& final(config)@.aliases =~= old(config)@.aliases.update(
                            key_index(old(config)@.aliases, name@),
                            (name@, AliasV { enabled: false, detailed: true, ..a }),
                        )
                        &&& final(config)@.groups == old(config)@.groups
                        &&& match a.group {
                            Some(g) => if !value_of(old(config)@.groups, g) {
                                o == Outcome::ConfigChanged
                            } else {
                                o matches Outcome::Command(c) && c@ == unalias_cmd(name@)
                            },
                            None => o matches Outcome::Command(c) && c@ == unalias_cmd(name@),
                        }
                    }
                })
            },
            Err(e) => {
                &&& final(config)@ == old(config)@
                &&& e == Failure::AliasDoesNotExist
                &&& !has_key(old(config)@.aliases, name@)
            },
        },
{
    let i = match config.aliases.find(name) {
        Some(i) => i,
        None => {
            return Err(Failure::AliasDoesNotExist);
        },
    };
    proof {
        lemma_key_index(config@.aliases, name@, i as int);
    }
    let a = config.aliases.val_at(i).clone();
    if !a.enabled {
        return Ok(Outcome::NoChanges);
    }
    let mut updated = a.clone();
    updated.enabled = false;
    updated.detailed = true;
    config.aliases.set_val_at(i, updated);

    if let Some(g) = &a.group {
        match config.groups.get(g.as_str()) {
            Some(enabled) => {
                if !enabled {
                    return Ok(Outcome::ConfigChanged);
                }
            },
            None => {
                proof {
                    assert(false);
                }
                return Err(Failure::UnexpectedBehavior);
            },
        }
    }
    Ok(Outcome::Command(unalias_str(name)))
}

/// Turns a whole group off.
///
/// An already-disabled group is left alone (`NoChanges`). Otherwise the flag
/// is cleared and every member alias that was itself enabled — and so
/// shell-visible until now — gets a dropping statement, in the group's
/// stored alias order; with no such member only the configuration changed.
///
/// Fails with `GroupDoesNotExist` when the name is unknown.
pub fn disable_group(config: &mut Config, name: &str, shell: &ShellType) -> (r: Result<
    Outcome,
    Failure,
>)
    requires
        old(config).wf(),
    ensures
        final(config).wf(),
        match r {
            Ok(o) => {
                &&& has_key(old(config)@.groups, name@)
                &&& ({
                    let was = value_of(old(config)@.groups, name@);
                    let cmds = disable_cmds(old(config)@.aliases, name@, *shell);
                    if !was {
                        o == Outcome::NoChanges && final(config)@ == old(config)@
                    } else {
                        &&& final(config)@.groups =~= old(config)@.groups.update(
                            key_index(old(config)@.groups, name@),
                            (name@, false),
                        )
                        &&& final(config)@.aliases == old(config)@.aliases
                        &&& if cmds.len() == 0 {
                            o == Outcome::ConfigChanged
                        } else {
                            o matches Outcome::Command(c) && c@ == cmds
                        }
                    }
                })
            },
            Err(e) => {
                &&& final(config)@ == old(config)@
                &&& e == Failure::GroupDoesNotExist
                &&& !has_key(old(config)@.groups, name@)
            },
        },
{
    let gi = match config.groups.find(name) {
        Some(i) => i,
        None => {
            return Err(Failure::GroupDoesNotExist);
        },
    };
    proof {
        lemma_key_index(config@.groups, name@, gi as int);
    }
    if !config.groups.val_at(gi) {
        return Ok(Outcome::NoChanges);
    }
    config.groups.set_val_at(gi, false);

    let mut command = String::new();
    let n = config.aliases.len();
    let mut i: usize = 0;
    while i < n
        invariant
            n == config@.aliases.len(),
            command@ == disable_cmds(config@.aliases.take(i as int), name@, *shell),
            i <= n,
        decreases n - i,
    {
        proof {
            assert(config@.aliases.take(i + 1).drop_last() =~= config@.aliases.take(i as int));
        }
        let a = config.aliases.val_at(i);
        let member = match &a.group {
            Some(g) => crate::model::str_eq(g.as_str(), name),
            None => false,
        };
        let supported = !(a.global && *shell != ShellType::Zsh);
        if member && supported && a.enabled {
            let stmt = unalias_str(config.aliases.key_at(i).as_str());
            command.append(stmt.as_str());
            command.append("\n");
        }
        proof {
            assert(command@ =~= disable_cmds(config@.aliases.take(i + 1), name@, *shell));
        }
        i = i + 1;
    }
    proof {
        assert(config@.aliases.take(n as int) =~= config@.aliases);
    }
    if command.as_str().is_empty() {
        Ok(Outcome::ConfigChanged)
    } else {
        Ok(Outcome::Command(command))
    }
}

} // verus!
