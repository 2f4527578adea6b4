//! Regenerating the full set of shell statements for a live session.

use vstd::prelude::*;
use vstd::string::StringExecFns;

use crate::add::{add_alias_str, alias_cmd};
use crate::listing::{in_scope, opt_str_view};
use crate::model::{AliasV, Config, ConfigV};
use crate::shell::ShellType;

verus! {

/// The defining statements of the enabled aliases of one scope (a group, or
/// `None` for the ungrouped), in stored alias order, one per line.
pub open spec fn scope_cmds(
    s: Seq<(Seq<char>, AliasV)>,
    g: Option<Seq<char>>,
    shell: ShellType,
) -> Seq<char>
    decreases s.len(),
{
    if s.len() == 0 {
        Seq::<char>::empty()
    } else {
        scope_cmds(s.drop_last(), g, shell) + if in_scope(s.last(), g, shell)
            && s.last().1.enabled {
            alias_cmd(s.last().0, s.last().1) + "\n"@
        } else {
            Seq::<char>::empty()
        }
    }
}

/// The statement blocks of the enabled groups, in stored group order.
pub open spec fn group_blocks(
    groups: Seq<(Seq<char>, bool)>,
    aliases: Seq<(Seq<char>, AliasV)>,
    shell: ShellType,
) -> Seq<char>
    decreases groups.len(),
{
    if groups.len() == 0 {
        Seq::<char>::empty()
    } else {
        group_blocks(groups.drop_last(), aliases, shell) + if groups.last().1 {
            scope_cmds(aliases, Some(groups.last().0), shell)
        } else {
            Seq::<char>::empty()
        }
    }
}

/// The full resync payload: drop everything, then redefine every alias that
/// is enabled, whose group (if any) is enabled, and that the shell can take
/// — ungrouped aliases first, then group by group in stored order.
pub open spec fn sync_script(c: ConfigV, shell: ShellType) -> Seq<char> {
    "unalias -a\n"@ + scope_cmds(c.aliases, None, shell) + group_blocks(c.groups, c.aliases, shell)
}

/// Renders the defining statements of one scope.
fn scope_cmds_str(config: &Config, group: Option<&str>, shell: &ShellType) -> (r: String)
    ensures
        r@ == scope_cmds(config@.aliases, opt_str_view(group), *shell),
{
    let ghost g = opt_str_view(group);
    let mut out = String::new();
    let n = config.aliases.len();
    let mut i: usize = 0;
    while i < n
        invariant
            n == config@.aliases.len(),
            i <= n,
            g == opt_str_view(group),
            out@ == scope_cmds(config@.aliases.take(i as int), g, *shell),
        decreases n - i,
    {
        proof {
            assert(config@.aliases.take(i + 1).drop_last() =~= config@.aliases.take(i as int));
        }
        let a = config.aliases.val_at(i);
        let matches_scope = match (&a.group, group) {
            (Some(ag), Some(gn)) => crate::model::str_eq(ag.as_str(), gn),
            (None, None) => true,
            _ => false,
        };
        let supported = !(a.global && *shell != ShellType::Zsh);
        if matches_scope && supported && a.enabled {
            let stmt = add_alias_str(config.aliases.key_at(i).as_str(), a);
            out.append(stmt.as_str());
            out.append("\n");
        }
        proof {
            assert(out@ =~= scope_cmds(config@.aliases.take(i + 1), g, *shell));
        }
        i = i + 1;
    }
    proof {
        assert(config@.aliases.take(n as int) =~= config@.aliases);
    }
    out
}

/// The authoritative full-resync payload for a new shell session; it depends
/// on nothing but the configuration and the shell dialect.
pub fn generate_alias_script_content(config: &Config, shell: &ShellType) -> (r: String)
    ensures
        r@ == sync_script(config@, *shell),
{
    let mut out = String::new();
    out.append("unalias -a\n");
    let ungrouped = scope_cmds_str(config, None, shell);
    out.append(ungrouped.as_str());

    let n = config.groups.len();
    let mut i: usize = 0;
    while i < n
        invariant
            n == config@.groups.len(),
            i <= n,
            out@ == "unalias -a\n"@ + scope_cmds(config@.aliases, None, *shell) + group_blocks(
                config@.groups.take(i as int),
                config@.aliases,
                *shell,
            ),
        decreases n - i,
    {
        proof {
            assert(config@.groups.take(i + 1).drop_last() =~= config@.groups.take(i as int));
        }
        if config.groups.val_at(i) {
            let name = config.groups.key_at(i).clone();
            let block = scope_cmds_str(config, Some(name.as_str()), shell);
            out.append(block.as_str());
        }
        proof {
            assert(out@ =~= "unalias -a\n"@ + scope_cmds(config@.aliases, None, *shell)
                + group_blocks(config@.groups.take(i + 1), config@.aliases, *shell));
        }
        i = i + 1;
    }
    proof {
        assert(config@.groups.take(n as int) =~= config@.groups);
    }
    out
}

} // verus!
