//! Renaming aliases and groups.

use vstd::prelude::*;
use vstd::string::StringExecFns;

use crate::add::{add_alias, alias_cmd};
use crate::model::{
    has_key, key_index, lemma_has_key_remove, lemma_key_index, value_of, AliasV, Config,
};
use crate::outcome::{Failure, Outcome};
use crate::remove::{remove_alias, unalias_cmd};

verus! {

/// Moves an alias to a new name: remove, then insert at the end of the
/// order, all fields kept.
///
/// Fails with `AliasDoesNotExist` when `old_name` is unknown and with
/// `AliasAlreadyExists` when `new_name` is taken, both leaving the
/// configuration unchanged. When the alias's recorded group has meanwhile
/// vanished, the reinsertion step reports `GroupDoesNotExist` and the alias
/// stays removed: surfacing that beats pretending nothing happened.
pub fn rename_alias(config: &mut Config, old_name: &str, new_name: &str) -> (r: Result<
    Outcome,
    Failure,
>)
    requires
        old(config).wf(),
    ensures
        final(config).wf(),
        match r {
            Ok(o) => {
                &&& has_key(old(config)@.aliases, old_name@)
                &&& !has_key(old(config)@.aliases, new_name@)
                &&& final(config)@.aliases =~= old(config)@.aliases.remove(
                    key_index(old(config)@.aliases, old_name@),
                ).push((new_name@, value_of(old(config)@.aliases, old_name@)))
                &&& final(config)@.groups == old(config)@.groups
                &&& o matches Outcome::Command(c) && c@ == unalias_cmd(old_name@) + "\n"@
                    + alias_cmd(new_name@, value_of(old(config)@.aliases, old_name@))
            },
            Err(e) => match e {
                Failure::AliasDoesNotExist => !has_key(old(config)@.aliases, old_name@) && final(
                config)@ == old(config)@,
                Failure::AliasAlreadyExists => has_key(old(config)@.aliases, old_name@) && has_key(
                    old(config)@.aliases,
                    new_name@,
                ) && final(config)@ == old(config)@,
                Failure::GroupDoesNotExist => {
                    &&& has_key(old(config)@.aliases, old_name@)
                    &&& !has_key(old(config)@.aliases, new_name@)
                    &&& (value_of(old(config)@.aliases, old_name@).group matches Some(g)
                        && !has_key(old(config)@.groups, g))
                    &&& final(config)@.aliases =~= old(config)@.aliases.remove(
                        key_index(old(config)@.aliases, old_name@),
                    )
                    &&& final(config)@.groups == old(config)@.groups
                },
                _ => false,
            },
        },
{
    let i = match config.aliases.find(old_name) {
        Some(i) => i,
        None => {
            return Err(Failure::AliasDoesNotExist);
        },
    };
    proof {
        lemma_key_index(config@.aliases, old_name@, i as int);
    }
    if config.aliases.contains_key(new_name) {
        return Err(Failure::AliasAlreadyExists);
    }
    let alias = config.aliases.val_at(i).clone();

    let mut command = match remove_alias(config, old_name) {
        Ok(Outcome::Command(cmd)) => cmd,
        _ => {
            proof {
                assert(false);
            }
            return Err(Failure::UnexpectedBehavior);
        },
    };
    command.append("\n");

    proof {
        if has_key(config@.aliases, new_name@) {
            lemma_has_key_remove(old(config)@.aliases, i as int, new_name@);
        }
    }
    match add_alias(config, new_name, &alias) {
        Ok(Outcome::Command(cmd)) => {
            command.append(cmd.as_str());
            Ok(Outcome::Command(command))
        },
        Ok(_) => {
            proof {
                assert(false);
            }
            Err(Failure::UnexpectedBehavior)
        },
        Err(e) => {
            proof {
                assert(e == Failure::GroupDoesNotExist);
            }
            Err(e)
        },
    }
}

/// The alias entries with every member of `old_g` repointed to `new_g`.
pub open spec fn repoint_group(
    s: Seq<(Seq<char>, AliasV)>,
    old_g: Seq<char>,
    new_g: Seq<char>,
) -> Seq<(Seq<char>, AliasV)> {
    s.map_values(
        |p: (Seq<char>, AliasV)|
            (
                p.0,
                AliasV {
                    group: if p.1.group == Some(old_g) {
                        Some(new_g)
                    } else {
                        p.1.group
                    },
                    ..p.1
                },
            ),
    )
}

/// Renames a group: the entry is removed and reinserted at the end of the
/// group order under the new name, and every alias pointing at the old name
/// is repointed. Groups alone are not shell-visible, so success is
/// `ConfigChanged`.
pub fn rename_group(config: &mut Config, old_name: &str, new_name: &str) -> (r: Result<
    Outcome,
    Failure,
>)
    requires
        old(config).wf(),
    ensures
        final(config).wf(),
        match r {
            Ok(o) => {
                &&& has_key(old(config)@.groups, old_name@)
                &&& !has_key(old(config)@.groups, new_name@)
                &&& final(config)@.groups =~= old(config)@.groups.remove(
                    key_index(old(config)@.groups, old_name@),
                ).push((new_name@, value_of(old(config)@.groups, old_name@)))
                &&& final(config)@.aliases =~= repoint_group(
                    old(config)@.aliases,
                    old_name@,
                    new_name@,
                )
                &&& o == Outcome::ConfigChanged
            },
            Err(e) => {
                &&& final(config)@ == old(config)@
                &&& match e {
                    Failure::GroupDoesNotExist => !has_key(old(config)@.groups, old_name@),
                    Failure::GroupAlreadyExists => has_key(old(config)@.groups, old_name@)
                        && has_key(old(config)@.groups, new_name@),
                    _ => false,
                }
            },
        },
{
    if !config.groups.contains_key(old_name) {
        return Err(Failure::GroupDoesNotExist);
    }
    if config.groups.contains_key(new_name) {
        return Err(Failure::GroupAlreadyExists);
    }
    let enabled = match config.groups.shift_remove(old_name) {
        Some(b) => b,
        None => {
            proof {
                assert(false);
            }
            return Err(Failure::UnexpectedBehavior);
        },
    };
    proof {
        if has_key(config@.groups, new_name@) {
            lemma_has_key_remove(
                old(config)@.groups,
                key_index(old(config)@.groups, old_name@),
                new_name@,
            );
        }
    }
    config.groups.insert(new_name.to_owned(), enabled);

    let ghost groups_done = config@.groups;
    let ghost target = repoint_group(old(config)@.aliases, old_name@, new_name@);
    let n = config.aliases.len();
    let mut i: usize = 0;
    while i < n
        invariant
            config.wf(),
            n == config@.aliases.len(),
            i <= n,
            target == repoint_group(old(config)@.aliases, old_name@, new_name@),
            target.len() == n,
            config@.groups == groups_done,
            forall|j: int| 0 <= j < i ==> config@.aliases[j] == target[j],
            forall|j: int| i <= j < n ==> config@.aliases[j] == old(config)@.aliases[j],
        decreases n - i,
    {
        let points_at_old = match &config.aliases.val_at(i).group {
            Some(g) => crate::model::str_eq(g.as_str(), old_name),
            None => false,
        };
        if points_at_old {
            let mut moved = config.aliases.val_at(i).clone();
            moved.group = Some(new_name.to_owned());
            config.aliases.set_val_at(i, moved);
        }
        i = i + 1;
    }
    proof {
        assert(config@.aliases =~= target);
    }
    Ok(Outcome::ConfigChanged)
}

} // verus!
