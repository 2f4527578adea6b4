//! Adding aliases and groups to the configuration.

use vstd::prelude::*;
use vstd::string::StringExecFns;

use crate::model::{has_key, opt_view, Alias, AliasV, Config};
use crate::outcome::{Failure, Outcome};

verus! {

/// The shell statement defining an alias: `alias [-g] -- 'name'='command'`.
pub open spec fn alias_cmd(name: Seq<char>, a: AliasV) -> Seq<char> {
    "alias"@ + (if a.global {
        " -g"@
    } else {
        Seq::<char>::empty()
    }) + " -- '"@ + name + "'='"@ + a.command + "'"@
}

/// Renders the shell statement that defines `alias` under `name`.
pub fn add_alias_str(name: &str, alias: &Alias) -> (r: String)
    ensures
        r@ == alias_cmd(name@, alias@),
{
    let mut s = String::new();
    s.append("alias");
    if alias.global {
        s.append(" -g");
    }
    s.append(" -- '");
    s.append(name);
    s.append("'='");
    s.append(alias.command.as_str());
    s.append("'");
    proof {
        assert(s@ =~= alias_cmd(name@, alias@));
    }
    s
}

/// Inserts a new alias at the end of the alias order.
///
/// Fails with `AliasAlreadyExists` when the name is taken and with
/// `GroupDoesNotExist` when the alias names an absent group; otherwise the
/// alias is appended and the defining statement is returned.
pub fn add_alias(config: &mut Config, name: &str, alias: &Alias) -> (r: Result<Outcome, Failure>)
    requires
        old(config).wf(),
    ensures
        final(config).wf(),
        match r {
            Ok(o) => {
                &&& !has_key(old(config)@.aliases, name@)
                &&& match alias@.group {
                    Some(g) => has_key(old(config)@.groups, g),
                    None => true,
                }
                &&& final(config)@.aliases =~= old(config)@.aliases.push((name@, alias@))
                &&& final(config)@.groups == old(config)@.groups
                &&& o matches Outcome::Command(c) && c@ == alias_cmd(name@, alias@)
            },
            Err(e) => {
                &&& final(config)@ == old(config)@
                &&& match e {
                    Failure::AliasAlreadyExists => has_key(old(config)@.aliases, name@),
                    Failure::GroupDoesNotExist => !has_key(old(config)@.aliases, name@) && (
                    alias@.group matches Some(g) && !has_key(old(config)@.groups, g)),
                    _ => false,
                }
            },
        },
{
    if config.aliases.contains_key(name) {
        return Err(Failure::AliasAlreadyExists);
    }
    if let Some(group_name) = &alias.group {
        if !config.groups.contains_key(group_name.as_str()) {
            return Err(Failure::GroupDoesNotExist);
        }
    }
    config.aliases.insert(name.to_owned(), alias.clone());
    Ok(Outcome::Command(add_alias_str(name, alias)))
}

/// Inserts a new group at the end of the group order.
///
/// Fails with `GroupAlreadyExists` when the name is taken; a group on its own
/// is never shell-visible, so success is only `ConfigChanged`.
pub fn add_group(config: &mut Config, name: &str, enabled: bool) -> (r: Result<Outcome, Failure>)
    requires
        old(config).wf(),
    ensures
        final(config).wf(),
        match r {
            Ok(o) => {
                &&& !has_key(old(config)@.groups, name@)
                &&& final(config)@.groups =~= old(config)@.groups.push((name@, enabled))
                &&& final(config)@.aliases == old(config)@.aliases
                &&& o == Outcome::ConfigChanged
            },
            Err(e) => {
                &&& final(config)@ == old(config)@
                &&& e == Failure::GroupAlreadyExists
                &&& has_key(old(config)@.groups, name@)
            },
        },
{
    if config.groups.contains_key(name) {
        return Err(Failure::GroupAlreadyExists);
    }
    config.groups.insert(name.to_owned(), enabled);
    Ok(Outcome::ConfigChanged)
}

/// An alias name is acceptable when it has no whitespace and no `=`.
pub open spec fn valid_alias_name(name: Seq<char>) -> bool {
    forall|i: int| 0 <= i < name.len() ==> !char_whitespace(#[trigger] name[i]) && name[i] != '='
}

/// What `char::is_whitespace` returns; the Unicode white-space set is not
/// restated here.
pub uninterp spec fn char_whitespace(c: char) -> bool;

/// Relies on `char::is_whitespace`: the answer depends on the character
/// alone.
#[verifier::external_body]
fn is_whitespace_char(c: char) -> (r: bool)
    ensures
        r == char_whitespace(c),
{
    c.is_whitespace()
}

/// Checks that a name contains no whitespace character and no `=`.
pub fn is_valid_alias_name(name: &str) -> (r: bool)
    ensures
        r == valid_alias_name(name@),
{
    let n = name.unicode_len();
    let mut i: usize = 0;
    while i < n
        invariant
            n == name@.len(),
            i <= n,
            forall|j: int|
                0 <= j < i ==> !char_whitespace(#[trigger] name@[j]) && name@[j] != '=',
        decreases n - i,
    {
        let c = name.get_char(i);
        if is_whitespace_char(c) || c == '=' {
            return false;
        }
        i = i + 1;
    }
    true
}

} // verus!
