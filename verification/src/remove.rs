//! Removing aliases and groups from the configuration.

use vstd::prelude::*;
use vstd::string::StringExecFns;

use crate::model::{has_key, key_index, strs_view, AliasV, Config};
use crate::outcome::{Failure, Outcome};

verus! {

/// The shell statement dropping an alias: `unalias 'name'`.
pub open spec fn unalias_cmd(name: Seq<char>) -> Seq<char> {
    "unalias '"@ + name + "'"@
}

/// Renders the shell statement that drops the alias `name`.
pub fn unalias_str(name: &str) -> (r: String)
    ensures
        r@ == unalias_cmd(name@),
{
    let mut s = String::new();
    s.append("unalias '");
    s.append(name);
    s.append("'");
    proof {
        assert(s@ =~= unalias_cmd(name@));
    }
    s
}

/// Removes the alias stored under `name`, shifting later aliases down.
///
/// Fails with `AliasDoesNotExist` when the name is unknown; otherwise the
/// statement undefining the alias is returned.
pub fn remove_alias(config: &mut Config, name: &str) -> (r: Result<Outcome, Failure>)
    requires
        old(config).wf(),
    ensures
        final(config).wf(),
        match r {
            Ok(o) => {
                &&& has_key(old(config)@.aliases, name@)
                &&& final(config)@.aliases =~= old(config)@.aliases.remove(
                    key_index(old(config)@.aliases, name@),
                )
                &&& final(config)@.groups == old(config)@.groups
                &&& o matches Outcome::Command(c) && c@ == unalias_cmd(name@)
            },
            Err(e) => {
                &&& final(config)@ == old(config)@
                &&& e == Failure::AliasDoesNotExist
                &&& !has_key(old(config)@.aliases, name@)
            },
        },
{
    match config.aliases.shift_remove(name) {
        Some(_) => Ok(Outcome::Command(unalias_str(name))),
        None => Err(Failure::AliasDoesNotExist),
    }
}

/// Drops every alias and answers with the shell's blanket `unalias -a`.
pub fn remove_all_aliases(config: &mut Config) -> (r: Result<Outcome, Failure>)
    requires
        old(config).wf(),
    ensures
        final(config).wf(),
        final(config)@.aliases =~= Seq::<(Seq<char>, AliasV)>::empty(),
        final(config)@.groups == old(config)@.groups,
        r matches Ok(o) && o matches Outcome::Command(c) && c@ == "unalias -a"@,
{
    config.aliases.clear();
    Ok(Outcome::Command("unalias -a".to_owned()))
}

/// Drops every group; member aliases are untouched.
pub fn remove_all_groups(config: &mut Config) -> (r: Result<Outcome, Failure>)
    requires
        old(config).wf(),
    ensures
        final(config).wf(),
        final(config)@.groups =~= Seq::<(Seq<char>, bool)>::empty(),
        final(config)@.aliases == old(config)@.aliases,
        r matches Ok(o) && o == Outcome::ConfigChanged,
{
    config.groups.clear();
    Ok(Outcome::ConfigChanged)
}

/// Drops everything, groups and aliases alike.
pub fn remove_all(config: &mut Config) -> (r: Result<Outcome, Failure>)
    requires
        old(config).wf(),
    ensures
        final(config).wf(),
        final(config)@.aliases =~= Seq::<(Seq<char>, AliasV)>::empty(),
        final(config)@.groups =~= Seq::<(Seq<char>, bool)>::empty(),
        r matches Ok(o) && o matches Outcome::Command(c) && c@ == "unalias -a"@,
{
    let r = remove_all_groups(config);
    if r.is_err() {
        return r;
    }
    remove_all_aliases(config)
}

/// The alias entries left after removing `names` in order; a name that is
/// (no longer) present leaves the entries as they are.
pub open spec fn remove_keys(s: Seq<(Seq<char>, AliasV)>, names: Seq<Seq<char>>) -> Seq<
    (Seq<char>, AliasV),
>
    decreases names.len(),
{
    if names.len() == 0 {
        s
    } else {
        let t = remove_keys(s, names.drop_last());
        if has_key(t, names.last()) {
            t.remove(key_index(t, names.last()))
        } else {
            t
        }
    }
}

/// True when removing `names` in order finds every name present when its
/// turn comes; with distinct present names this is simple membership.
pub open spec fn removable(s: Seq<(Seq<char>, AliasV)>, names: Seq<Seq<char>>) -> bool
    decreases names.len(),
{
    if names.len() == 0 {
        true
    } else {
        removable(s, names.drop_last()) && has_key(remove_keys(s, names.drop_last()), names.last())
    }
}

/// The statements dropping `names`, one per line.
pub open spec fn unalias_join(names: Seq<Seq<char>>) -> Seq<char>
    decreases names.len(),
{
    if names.len() == 0 {
        Seq::<char>::empty()
    } else if names.len() == 1 {
        unalias_cmd(names.last())
    } else {
        unalias_join(names.drop_last()) + "\n"@ + unalias_cmd(names.last())
    }
}

/// A failure on some prefix of `names` refutes `removable` for the whole.
proof fn lemma_removable_prefix(s: Seq<(Seq<char>, AliasV)>, names: Seq<Seq<char>>, m: int)
    requires
        0 <= m <= names.len(),
        removable(s, names),
    ensures
        removable(s, names.take(m)),
    decreases names.len(),
{
    if m == names.len() {
        assert(names.take(m) =~= names);
    } else if names.len() > 0 {
        assert(names.take(m) =~= names.drop_last().take(m));
        lemma_removable_prefix(s, names.drop_last(), m);
    }
}

/// Removing one entry does not disturb any other key.
proof fn lemma_remove_other(t: Seq<(Seq<char>, AliasV)>, i: int, k: Seq<char>)
    requires
        0 <= i < t.len(),
        t[i].0 != k,
    ensures
        has_key(t.remove(i), k) == has_key(t, k),
{
    if has_key(t, k) {
        let w = choose|w: int| 0 <= w < t.len() && (#[trigger] t[w]).0 == k;
        if w < i {
            assert(t.remove(i)[w].0 == k);
        } else {
            assert(t.remove(i)[w - 1].0 == k);
        }
    }
    if has_key(t.remove(i), k) {
        crate::model::lemma_has_key_remove(t, i, k);
    }
}

/// Removing a batch of names does not disturb a key outside the batch.
proof fn lemma_remove_keys_other(
    s: Seq<(Seq<char>, AliasV)>,
    names: Seq<Seq<char>>,
    k: Seq<char>,
)
    requires
        forall|t: int| 0 <= t < names.len() ==> #[trigger] names[t] != k,
    ensures
        has_key(remove_keys(s, names), k) == has_key(s, k),
    decreases names.len(),
{
    if names.len() > 0 {
        lemma_remove_keys_other(s, names.drop_last(), k);
        let t = remove_keys(s, names.drop_last());
        if has_key(t, names.last()) {
            let i = key_index(t, names.last());
            assert(0 <= i < t.len() && t[i].0 == names.last());
            lemma_remove_other(t, i, k);
        }
    }
}

/// Pairwise-distinct names that are all present can be removed in order.
pub proof fn lemma_removable(s: Seq<(Seq<char>, AliasV)>, names: Seq<Seq<char>>)
    requires
        forall|p: int, q: int|
            0 <= p < q < names.len() ==> #[trigger] names[p] != #[trigger] names[q],
        forall|t: int| 0 <= t < names.len() ==> has_key(s, #[trigger] names[t]),
    ensures
        removable(s, names),
    decreases names.len(),
{
    if names.len() > 0 {
        lemma_removable(s, names.drop_last());
        lemma_remove_keys_other(s, names.drop_last(), names.last());
    }
}

/// Removes the named aliases in order, joining the dropping statements.
///
/// When some name is missing at its turn the walk stops there with
/// `AliasDoesNotExist`: the names before it stay removed.
pub fn remove_aliases(config: &mut Config, names: &Vec<String>) -> (r: Result<Outcome, Failure>)
    requires
        old(config).wf(),
    ensures
        final(config).wf(),
        final(config)@.groups == old(config)@.groups,
        match r {
            Ok(o) => {
                &&& removable(old(config)@.aliases, strs_view(names@))
                &&& final(config)@.aliases =~= remove_keys(
                    old(config)@.aliases,
                    strs_view(names@),
                )
                &&& o matches Outcome::Command(c) && c@ == unalias_join(strs_view(names@))
            },
            Err(e) => {
                &&& e == Failure::AliasDoesNotExist
                &&& !removable(old(config)@.aliases, strs_view(names@))
                &&& exists|k: int|
                    {
                        // the walk stopped at the first absent name; the
                        // names before it are gone
                        &&& 0 <= k < names@.len()
                        &&& removable(
                            old(config)@.aliases,
                            #[trigger] strs_view(names@).take(k),
                        )
                        &&& !has_key(
                            remove_keys(old(config)@.aliases, strs_view(names@).take(k)),
                            strs_view(names@)[k],
                        )
                        &&& final(config)@.aliases =~= remove_keys(
                            old(config)@.aliases,
                            strs_view(names@).take(k),
                        )
                    }
            },
        },
{
    let ghost all = strs_view(names@);
    let mut command = String::new();
    let n = names.len();
    let mut i: usize = 0;
    while i < n
        invariant
            old(config).wf(),
            config.wf(),
            n == names@.len(),
            i <= n,
            all == strs_view(names@),
            removable(old(config)@.aliases, all.take(i as int)),
            config@.aliases =~= remove_keys(old(config)@.aliases, all.take(i as int)),
            config@.groups == old(config)@.groups,
            command@ == unalias_join(all.take(i as int)),
        decreases n - i,
    {
        proof {
            assert(all.take(i + 1).drop_last() =~= all.take(i as int));
            assert(all.take(i + 1).last() == names@[i as int]@);
        }
        let res = remove_alias(config, names[i].as_str());
        match res {
            Ok(Outcome::Command(cmd)) => {
                if i > 0 {
                    command.append("\n");
                }
                command.append(cmd.as_str());
                proof {
                    assert(command@ =~= unalias_join(all.take(i + 1)));
                }
            },
            Ok(_) => {
                proof {
                    assert(false);
                }
                return Err(Failure::UnexpectedBehavior);
            },
            Err(e) => {
                proof {
                    if removable(old(config)@.aliases, all) {
                        lemma_removable_prefix(old(config)@.aliases, all, i + 1);
                    }
                    // the loop index witnesses the first absent name
                    assert(0 <= i < names@.len() && removable(
                        old(config)@.aliases,
                        all.take(i as int),
                    ) && !has_key(
                        remove_keys(old(config)@.aliases, all.take(i as int)),
                        all[i as int],
                    ) && config@.aliases =~= remove_keys(
                        old(config)@.aliases,
                        all.take(i as int),
                    ));
                }
                return Err(e);
            },
        }
        i = i + 1;
    }
    proof {
        assert(all.take(n as int) =~= all);
    }
    Ok(Outcome::Command(command))
}

/// Removes the group entry alone; member aliases keep their (now dangling)
/// group names for higher layers to resolve.
pub fn remove_group(config: &mut Config, name: &str) -> (r: Result<Outcome, Failure>)
    requires
        old(config).wf(),
    ensures
        final(config).wf(),
        match r {
            Ok(o) => {
                &&& has_key(old(config)@.groups, name@)
                &&& final(config)@.groups =~= old(config)@.groups.remove(
                    key_index(old(config)@.groups, name@),
                )
                &&& final(config)@.aliases == old(config)@.aliases
                &&& o == Outcome::ConfigChanged
            },
            Err(e) => {
                &&& final(config)@ == old(config)@
                &&& e == Failure::GroupDoesNotExist
                &&& !has_key(old(config)@.groups, name@)
            },
        },
{
    match config.groups.shift_remove(name) {
        Some(_) => Ok(Outcome::ConfigChanged),
        None => Err(Failure::GroupDoesNotExist),
    }
}

} // verus!
