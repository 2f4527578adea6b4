//! Editing an existing alias in place.

use vstd::prelude::*;

use crate::add::{add_alias_str, alias_cmd};
use crate::model::{has_key, key_index, lemma_key_index, Alias, Config};
use crate::outcome::{Failure, Outcome};

verus! {

/// Replaces the alias stored under `name` wholesale, keeping its position,
/// and returns the statement defining the new alias.
///
/// Fails with `AliasDoesNotExist` when the name is unknown. Callers wanting a
/// partial edit must read the old alias and merge fields themselves.
pub fn edit_alias(config: &mut Config, name: &str, new_alias: &Alias) -> (r: Result<
    Outcome,
    Failure,
>)
    requires
        old(config).wf(),
    ensures
        final(config).wf(),
        match r {
            Ok(o) => {
                &&& has_key(old(config)@.aliases, name@)
                &&& final(config)@.aliases =~= old(config)@.aliases.update(
                    key_index(old(config)@.aliases, name@),
                    (name@, new_alias@),
                )
                &&& final(config)@.groups == old(config)@.groups
                &&& o matches Outcome::Command(c) && c@ == alias_cmd(name@, new_alias@)
            },
            Err(e) => {
                &&& final(config)@ == old(config)@
                &&& e == Failure::AliasDoesNotExist
                &&& !has_key(old(config)@.aliases, name@)
            },
        },
{
    match config.aliases.find(name) {
        Some(i) => {
            proof {
                lemma_key_index(config@.aliases, name@, i as int);
            }
            config.aliases.set_val_at(i, new_alias.clone());
            Ok(Outcome::Command(add_alias_str(name, new_alias)))
        },
        None => Err(Failure::AliasDoesNotExist),
    }
}

} // verus!
