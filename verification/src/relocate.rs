//! Moving an alias between groups.

use vstd::prelude::*;

use crate::model::{has_key, key_index, opt_view, value_of, AliasV, Config};
use crate::outcome::{Failure, Outcome};

verus! {

/// Sets the group of the alias stored under `name`.
///
/// Fails with `AliasDoesNotExist` when the alias is unknown and with
/// `GroupDoesNotExist` when `new_group` names an absent group; either failure
/// leaves the configuration, and in particular the alias's group field,
/// unchanged. A move alone never changes shell state, so success is
/// `ConfigChanged`.
pub fn move_alias(config: &mut Config, name: &str, new_group: &Option<String>) -> (r: Result<
    Outcome,
    Failure,
>)
    requires
        old(config).wf(),
    ensures
        final(config).wf(),
        match r {
            Ok(o) => {
                &&& has_key(old(config)@.aliases, name@)
                &&& match opt_view(*new_group) {
                    Some(g) => has_key(old(config)@.groups, g),
                    None => true,
                }
                &&& final(config)@.aliases =~= old(config)@.aliases.update(
                    key_index(old(config)@.aliases, name@),
                    (
                        name@,
                        AliasV {
                            group: opt_view(*new_group),
                            ..value_of(old(config)@.aliases, name@)
                        },
                    ),
                )
                &&& final(config)@.groups == old(config)@.groups
                &&& o == Outcome::ConfigChanged
            },
            Err(e) => {
                &&& final(config)@ == old(config)@
                &&& match e {
                    Failure::AliasDoesNotExist => !has_key(old(config)@.aliases, name@),
                    Failure::GroupDoesNotExist => has_key(old(config)@.aliases, name@) && (
                    opt_view(*new_group) matches Some(g) && !has_key(old(config)@.groups, g)),
                    _ => false,
                }
            },
        },
{
    let i = match config.aliases.find(name) {
        Some(i) => i,
        None => {
            return Err(Failure::AliasDoesNotExist);
        },
    };
    proof {
        crate::model::lemma_key_index(config@.aliases, name@, i as int);
    }
    if let Some(group_name) = new_group {
        if !config.groups.contains_key(group_name.as_str()) {
            return Err(Failure::GroupDoesNotExist);
        }
    }
    let mut moved = config.aliases.val_at(i).clone();
    moved.group = match new_group {
        Some(g) => Some(g.clone()),
        None => None,
    };
    config.aliases.set_val_at(i, moved);
    Ok(Outcome::ConfigChanged)
}

} // verus!
