//! Collecting aliases by group, in stored order.

use vstd::prelude::*;
use vstd::string::StringExecFns;

use crate::model::{has_key, strs_view, AliasV, Config};
use crate::outcome::Failure;
use crate::shell::{shell_supports, ShellType};

verus! {

/// The character-sequence view of an optional borrowed name.
pub open spec fn opt_str_view(o: Option<&str>) -> Option<Seq<char>> {
    match o {
        Some(s) => Some(s@),
        None => None,
    }
}

/// The names of the aliases in scope `g` (a group, or `None` for the
/// ungrouped), in stored order, skipping aliases the shell cannot take.
pub open spec fn group_members(
    s: Seq<(Seq<char>, AliasV)>,
    g: Option<Seq<char>>,
    shell: ShellType,
) -> Seq<Seq<char>>
    decreases s.len(),
{
    if s.len() == 0 {
        Seq::<Seq<char>>::empty()
    } else {
        group_members(s.drop_last(), g, shell) + if s.last().1.group == g && shell_supports(
            s.last().1.global,
            shell,
        ) {
            seq![s.last().0]
        } else {
            Seq::<Seq<char>>::empty()
        }
    }
}

/// True when the stored alias belongs to scope `g` and suits the shell.
pub open spec fn in_scope(e: (Seq<char>, AliasV), g: Option<Seq<char>>, shell: ShellType) -> bool {
    e.1.group == g && shell_supports(e.1.global, shell)
}

/// Collects the names of the aliases in scope `g`, in stored order.
fn collect_members(config: &Config, group: Option<&str>, shell: &ShellType) -> (r: Vec<String>)
    ensures
        strs_view(r@) =~= group_members(config@.aliases, opt_str_view(group), *shell),
{
    let ghost g = opt_str_view(group);
    let mut acc: Vec<String> = Vec::new();
    let n = config.aliases.len();
    let mut i: usize = 0;
    while i < n
        invariant
            n == config@.aliases.len(),
            i <= n,
            g == opt_str_view(group),
            strs_view(acc@) =~= group_members(config@.aliases.take(i as int), g, *shell),
        decreases n - i,
    {
        proof {
            assert(config@.aliases.take(i + 1).drop_last() =~= config@.aliases.take(i as int));
        }
        let a = config.aliases.val_at(i);
        let matches_scope = match (&a.group, group) {
            (Some(ag), Some(gn)) => crate::model::str_eq(ag.as_str(), gn),
            (None, None) => true,
            _ => false,
        };
        let supported = !(a.global && *shell != ShellType::Zsh);
        if matches_scope && supported {
            acc.push(config.aliases.key_at(i).clone());
        }
        proof {
            assert(strs_view(acc@) =~= group_members(config@.aliases.take(i + 1), g, *shell));
        }
        i = i + 1;
    }
    proof {
        assert(config@.aliases.take(n as int) =~= config@.aliases);
    }
    acc
}

/// Every collected member name is a key of the alias entries.
pub proof fn lemma_members_in_keys(
    s: Seq<(Seq<char>, AliasV)>,
    g: Option<Seq<char>>,
    shell: ShellType,
)
    ensures
        forall|t: int|
            0 <= t < group_members(s, g, shell).len() ==> has_key(
                s,
                #[trigger] group_members(s, g, shell)[t],
            ),
    decreases s.len(),
{
    if s.len() > 0 {
        lemma_members_in_keys(s.drop_last(), g, shell);
        let ms = group_members(s, g, shell);
        let prev = group_members(s.drop_last(), g, shell);
        assert forall|t: int| 0 <= t < ms.len() implies has_key(s, #[trigger] ms[t]) by {
            if t < prev.len() {
                assert(has_key(s.drop_last(), prev[t]));
                let w = choose|w: int|
                    0 <= w < s.drop_last().len() && (#[trigger] s.drop_last()[w]).0 == prev[t];
                assert(s[w].0 == prev[t]);
            } else {
                assert(ms[t] == s.last().0);
                assert(s[s.len() - 1].0 == ms[t]);
            }
        }
    }
}

/// With distinct keys the collected member names are pairwise distinct.
pub proof fn lemma_members_distinct(
    s: Seq<(Seq<char>, AliasV)>,
    g: Option<Seq<char>>,
    shell: ShellType,
)
    requires
        crate::model::distinct_keys(s),
    ensures
        forall|p: int, q: int|
            0 <= p < q < group_members(s, g, shell).len() ==> #[trigger] group_members(
                s,
                g,
                shell,
            )[p] != #[trigger] group_members(s, g, shell)[q],
    decreases s.len(),
{
    if s.len() > 0 {
        assert forall|i: int, j: int|
            0 <= i < j < s.drop_last().len() implies (#[trigger] s.drop_last()[i]).0 != (
        #[trigger] s.drop_last()[j]).0 by {
            assert(s[i].0 != s[j].0);
        }
        lemma_members_distinct(s.drop_last(), g, shell);
        lemma_members_in_keys(s.drop_last(), g, shell);
        let ms = group_members(s, g, shell);
        let prev = group_members(s.drop_last(), g, shell);
        assert forall|p: int, q: int| 0 <= p < q < ms.len() implies #[trigger] ms[p]
            != #[trigger] ms[q] by {
            if q < prev.len() {
                assert(prev[p] != prev[q]);
            } else {
                assert(ms[q] == s.last().0);
                assert(has_key(s.drop_last(), prev[p]));
                let w = choose|w: int|
                    0 <= w < s.drop_last().len() && (#[trigger] s.drop_last()[w]).0 == prev[p];
                assert(s[w].0 == prev[p]);
                assert(s[w].0 != s[s.len() - 1].0);
            }
        }
    }
}

/// The names of the aliases in one group (or ungrouped, for `None`), in
/// stored order, skipping aliases the shell cannot take.
///
/// Fails with `GroupDoesNotExist` when a named group is absent.
pub fn get_aliases_from_single_group(
    config: &Config,
    group: Option<&str>,
    shell: &ShellType,
) -> (r: Result<Vec<String>, Failure>)
    ensures
        match r {
            Ok(v) => {
                &&& match opt_str_view(group) {
                    Some(g) => has_key(config@.groups, g),
                    None => true,
                }
                &&& strs_view(v@) =~= group_members(config@.aliases, opt_str_view(group), *shell)
            },
            Err(e) => e == Failure::GroupDoesNotExist && (opt_str_view(group) matches Some(g)
                && !has_key(config@.groups, g)),
        },
{
    if let Some(name) = group {
        if !config.groups.contains_key(name) {
            return Err(Failure::GroupDoesNotExist);
        }
    }
    Ok(collect_members(config, group, shell))
}

/// Every scope of the configuration with its member names: first the
/// ungrouped aliases, then each group in stored order.
///
/// The alias order within each scope is the stored alias order; aliases the
/// shell cannot take are skipped.
pub fn get_all_aliases_grouped(config: &Config, shell: &ShellType) -> (r: Vec<
    (Option<String>, Vec<String>),
>)
    ensures
        r@.len() == 1 + config@.groups.len(),
        r@[0].0 is None,
        strs_view(r@[0].1@) =~= group_members(config@.aliases, None, *shell),
        forall|k: int|
            1 <= k < r@.len() ==> crate::model::opt_view((#[trigger] r@[k]).0) == Some(
                config@.groups[k - 1].0,
            ) && strs_view(r@[k].1@) =~= group_members(
                config@.aliases,
                Some(config@.groups[k - 1].0),
                *shell,
            ),
{
    let mut r: Vec<(Option<String>, Vec<String>)> = Vec::new();
    r.push((None, collect_members(config, None, shell)));
    let n = config.groups.len();
    let mut i: usize = 0;
    while i < n
        invariant
            n == config@.groups.len(),
            i <= n,
            r@.len() == 1 + i,
            r@[0].0 is None,
            strs_view(r@[0].1@) =~= group_members(config@.aliases, None, *shell),
            forall|k: int|
                1 <= k < r@.len() ==> crate::model::opt_view((#[trigger] r@[k]).0) == Some(
                    config@.groups[k - 1].0,
                ) && strs_view(r@[k].1@) =~= group_members(
                    config@.aliases,
                    Some(config@.groups[k - 1].0),
                    *shell,
                ),
        decreases n - i,
    {
        let name = config.groups.key_at(i).clone();
        let members = collect_members(config, Some(name.as_str()), shell);
        r.push((Some(name), members));
        i = i + 1;
    }
    r
}

} // verus!
