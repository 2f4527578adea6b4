//! Enabling aliases and groups.

use vstd::prelude::*;
use vstd::string::StringExecFns;

use crate::add::{add_alias_str, alias_cmd};
use crate::listing::in_scope;
use crate::model::{has_key, key_index, lemma_key_index, value_of, Alias, AliasV, Config};
use crate::outcome::{Failure, Outcome};
use crate::shell::ShellType;

verus! {

/// The statements defining the enabled members of group `g`, in stored alias
/// order, one per line.
pub open spec fn enable_cmds(s: Seq<(Seq<char>, AliasV)>, g: Seq<char>, shell: ShellType) -> Seq<
    char,
>
    decreases s.len(),
{
    if s.len() == 0 {
        Seq::<char>::empty()
    } else {
        enable_cmds(s.drop_last(), g, shell) + if in_scope(s.last(), Some(g), shell)
            && s.last().1.enabled {
            alias_cmd(s.last().0, s.last().1) + "\n"@
        } else {
            Seq::<char>::empty()
        }
    }
}

/// Turns one alias on, re-deriving its detailed mark.
///
/// If the alias's group is currently disabled nothing becomes shell-visible
/// (`ConfigChanged`); otherwise the defining statement is returned, also
/// when the alias was already on.
///
/// Fails with `AliasDoesNotExist` when the name is unknown. The alias's
/// group, if any, must be present.
pub fn enable_alias(config: &mut Config, name: &str) -> (r: Result<Outcome, Failure>)
    requires
        old(config).wf(),
        has_key(old(config)@.aliases, name@) ==> match value_of(
            old(config)@.aliases,
            name@,
        ).group {
            Some(g) => has_key(old(config)@.groups, g),
            None => true,
        },
    ensures
        final(config).wf(),
        match r {
            Ok(o) => {
                &&& has_key(old(config)@.aliases, name@)
                &&& ({
                    let a = value_of(old(config)@.aliases, name@);
                    let now = AliasV { enabled: true, detailed: a.global, ..a };
                    &&& final(config)@.aliases =~= old(config)@.aliases.update(
                        key_index(old(config)@.aliases, name@),
                        (name@, now),
                    )
                    &&& final(config)@.groups == old(config)@.groups
                    &&& match a.group {
                        Some(g) => if !value_of(old(config)@.groups, g) {
                            o == Outcome::ConfigChanged
                        } else {
                            o matches Outcome::Command(c) && c@ == alias_cmd(name@, now)
                        },
                        None => o matches Outcome::Command(c) && c@ == alias_cmd(name@, now),
                    }
                })
            },
            Err(e) => {
                &&& final(config)@ == old(config)@
                &&& e == Failure::AliasDoesNotExist
                &&& !has_key(old(config)@.aliases, name@)
            },
        },
{
    let i = match config.aliases.find(name) {
        Some(i) => i,
        None => {
            return Err(Failure::AliasDoesNotExist);
        },
    };
    proof {
        lemma_key_index(config@.aliases, name@, i as int);
    }
    let a: Alias = config.aliases.val_at(i).clone();
    let mut updated = a.clone();
    updated.enabled = true;
    updated.detailed = updated.global;
    let statement = add_alias_str(name, &updated);
    config.aliases.set_val_at(i, updated);

    if let Some(g) = &a.group {
        match config.groups.get(g.as_str()) {
            Some(enabled) => {
                if !enabled {
                    return Ok(Outcome::ConfigChanged);
                }
            },
            None => {
                proof {
                    assert(false);
                }
                return Err(Failure::UnexpectedBehavior);
            },
        }
    }
    Ok(Outcome::Command(statement))
}

/// Turns a whole group on.
///
/// The flag is set and every member alias that is itself enabled gets its
/// defining statement, in the group's stored alias order; with no such
/// member only the configuration changed. The flag is set even when it
/// already was, and the statements are then re-issued.
///
/// Fails with `GroupDoesNotExist` when the name is unknown.
pub fn enable_group(config: &mut Config, name: &str, shell: &ShellType) -> (r: Result<
    Outcome,
    Failure,
>)
    requires
        old(config).wf(),
    ensures
        final(config).wf(),
        match r {
            Ok(o) => {
                &&& has_key(old(config)@.groups, name@)
                &&& final(config)@.groups =~= old(config)@.groups.update(
                    key_index(old(config)@.groups, name@),
                    (name@, true),
                )
                &&& final(config)@.aliases == old(config)@.aliases
                &&& ({
                    let cmds = enable_cmds(old(config)@.aliases, name@, *shell);
                    if cmds.len() == 0 {
                        o == Outcome::ConfigChanged
                    } else {
                        o matches Outcome::Command(c) && c@ == cmds
                    }
                })
            },
            Err(e) => {
                &&& final(config)@ == old(config)@
                &&& e == Failure::GroupDoesNotExist
                &&& !has_key(old(config)@.groups, name@)
            },
        },
{
    let gi = match config.groups.find(name) {
        Some(i) => i,
        None => {
            return Err(Failure::GroupDoesNotExist);
        },
    };
    proof {
        lemma_key_index(config@.groups, name@, gi as int);
    }
    config.groups.set_val_at(gi, true);

    let mut command = String::new();
    let n = config.aliases.len();
    let mut i: usize = 0;
    while i < n
        invariant
            n == config@.aliases.len(),
            command@ == enable_cmds(config@.aliases.take(i as int), name@, *shell),
            i <= n,
        decreases n - i,
    {
        proof {
            assert(config@.aliases.take(i + 1).drop_last() =~= config@.aliases.take(i as int));
        }
        let a = config.aliases.val_at(i);
        let member = match &a.group {
            Some(g) => crate::model::str_eq(g.as_str(), name),
            None => false,
        };
        let supported = !(a.global && *shell != ShellType::Zsh);
        if member && supported && a.enabled {
            let stmt = add_alias_str(config.aliases.key_at(i).as_str(), config.aliases.val_at(i));
            command.append(stmt.as_str());
            command.append("\n");
        }
        proof {
            assert(command@ =~= enable_cmds(config@.aliases.take(i + 1), name@, *shell));
        }
        i = i + 1;
    }
    proof {
        assert(config@.aliases.take(n as int) =~= config@.aliases);
    }
    if command.as_str().is_empty() {
        Ok(Outcome::ConfigChanged)
    } else {
        Ok(Outcome::Command(command))
    }
}

} // verus!
