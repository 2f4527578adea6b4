//! Rendering alias listings: headers, per-alias lines, and filters.

use vstd::prelude::*;
use vstd::string::StringExecFns;

use crate::commands::ListCommand;
use crate::listing::{
    get_all_aliases_grouped, get_aliases_from_single_group, group_members, lemma_members_in_keys,
    opt_str_view,
};
use crate::model::{has_key, opt_view, strs_view, value_of, AliasV, Config};
use crate::outcome::Failure;
use crate::shell::ShellType;
use crate::style::{alias_info, enabled_sym, enabled_symbol, format_alias_info};

verus! {

/// `n` repetitions of one filler character sequence.
pub open spec fn repeated(unit: Seq<char>, n: int) -> Seq<char>
    decreases n,
{
    if n <= 0 {
        Seq::<char>::empty()
    } else {
        repeated(unit, n - 1) + unit
    }
}

/// `msg` centered to `width` with `=` on both sides, the right side taking
/// the odd filler.
pub open spec fn centered(msg: Seq<char>, width: int) -> Seq<char> {
    if msg.len() >= width {
        msg
    } else {
        let pad = width - msg.len();
        repeated("="@, pad / 2) + msg + repeated("="@, pad - pad / 2)
    }
}

/// Builds `n` filler characters.
fn equals_run(n: usize) -> (r: String)
    ensures
        r@ == repeated("="@, n as int),
{
    let mut s = String::new();
    let mut i: usize = 0;
    while i < n
        invariant
            i <= n,
            s@ == repeated("="@, i as int),
        decreases n - i,
    {
        s.append("=");
        i = i + 1;
    }
    s
}

/// Centers `msg` to `width` between `=` runs.
fn center_str(msg: String, width: usize) -> (r: String)
    ensures
        r@ == centered(msg@, width as int),
{
    let len = msg.unicode_len();
    if len >= width {
        return msg;
    }
    let pad = width - len;
    let left = pad / 2;
    let mut s = equals_run(left);
    s.append(msg.as_str());
    let right = equals_run(pad - left);
    s.append(right.as_str());
    proof {
        assert(s@ =~= centered(msg@, width as int));
    }
    s
}

/// The banner line over one group listing: the group's name and status,
/// centered in a rule of `=`.
pub open spec fn header_line(name: Seq<char>, enabled: bool) -> Seq<char> {
    centered(" Group: "@ + name + " "@ + enabled_sym(enabled) + " "@, 50)
}

/// The banner over a group's listing; the ungrouped scope is always shown
/// enabled, under the name `ungrouped`.
///
/// Fails with `GroupDoesNotExist` when a named group is absent.
pub fn group_header(config: &Config, group: &Option<String>) -> (r: Result<String, Failure>)
    requires
        config.wf(),
    ensures
        match r {
            Ok(s) => match opt_view(*group) {
                Some(g) => has_key(config@.groups, g) && s@ == header_line(
                    g,
                    value_of(config@.groups, g),
                ),
                None => s@ == header_line("ungrouped"@, true),
            },
            Err(e) => e == Failure::GroupDoesNotExist && (opt_view(*group) matches Some(g)
                && !has_key(config@.groups, g)),
        },
{
    let group_enabled: bool;
    let group_name: String;
    match group {
        Some(g) => {
            match config.groups.get(g.as_str()) {
                Some(enabled) => {
                    group_enabled = enabled;
                    group_name = g.clone();
                },
                None => {
                    return Err(Failure::GroupDoesNotExist);
                },
            }
        },
        None => {
            group_enabled = true;
            group_name = "ungrouped".to_owned();
        },
    }
    let mut message = String::new();
    message.append(" Group: ");
    message.append(group_name.as_str());
    message.append(" ");
    let sym = enabled_symbol(group_enabled);
    message.append(sym.as_str());
    message.append(" ");
    proof {
        match opt_view(*group) {
            Some(g) => {
                assert(message@ =~= " Group: "@ + g + " "@ + enabled_sym(group_enabled) + " "@);
            },
            None => {
                assert(message@ =~= " Group: "@ + "ungrouped"@ + " "@ + enabled_sym(true)
                    + " "@);
            },
        }
    }
    Ok(center_str(message, 50))
}

/// The listing lines of the named aliases, one per line, in order.
pub open spec fn infos_join(s: Seq<(Seq<char>, AliasV)>, names: Seq<Seq<char>>) -> Seq<char>
    decreases names.len(),
{
    if names.len() == 0 {
        Seq::<char>::empty()
    } else {
        infos_join(s, names.drop_last()) + alias_info(names.last(), value_of(s, names.last()))
            + "\n"@
    }
}

/// Renders one line per named alias.
///
/// Fails with `AliasDoesNotExist` when a name is unknown.
pub fn format_aliases_list(config: &Config, aliases: &Vec<String>) -> (r: Result<String, Failure>)
    requires
        config.wf(),
    ensures
        match r {
            Ok(s) => (forall|t: int|
                0 <= t < aliases@.len() ==> has_key(config@.aliases, (#[trigger] aliases@[t])@))
                && s@ == infos_join(config@.aliases, strs_view(aliases@)),
            Err(e) => e == Failure::AliasDoesNotExist && exists|t: int|
                0 <= t < aliases@.len() && !has_key(config@.aliases, (#[trigger] aliases@[t])@),
        },
{
    let ghost names = strs_view(aliases@);
    let mut content = String::new();
    let n = aliases.len();
    let mut i: usize = 0;
    while i < n
        invariant
            config.wf(),
            n == aliases@.len(),
            i <= n,
            names == strs_view(aliases@),
            forall|t: int| 0 <= t < i ==> has_key(config@.aliases, (#[trigger] aliases@[t])@),
            content@ == infos_join(config@.aliases, names.take(i as int)),
        decreases n - i,
    {
        proof {
            assert(names.take(i + 1).drop_last() =~= names.take(i as int));
            assert(names.take(i + 1).last() == aliases@[i as int]@);
        }
        match format_alias_info(config, aliases[i].as_str()) {
            Ok(line) => {
                content.append(line.as_str());
                content.append("\n");
            },
            Err(e) => {
                return Err(e);
            },
        }
        i = i + 1;
    }
    proof {
        assert(names.take(n as int) =~= names);
    }
    Ok(content)
}

/// A group banner followed by the lines of the given aliases.
pub fn format_group_and_aliases(
    config: &Config,
    group_id: &Option<String>,
    aliases: &Vec<String>,
) -> (r: Result<String, Failure>)
    requires
        config.wf(),
    ensures
        match r {
            Ok(s) => s@ == (match opt_view(*group_id) {
                Some(g) => header_line(g, value_of(config@.groups, g)),
                None => header_line("ungrouped"@, true),
            }) + "\n"@ + infos_join(config@.aliases, strs_view(aliases@)),
            Err(e) => match e {
                Failure::GroupDoesNotExist => opt_view(*group_id) matches Some(g) && !has_key(
                    config@.groups,
                    g,
                ),
                Failure::AliasDoesNotExist => exists|t: int|
                    0 <= t < aliases@.len() && !has_key(
                        config@.aliases,
                        (#[trigger] aliases@[t])@,
                    ),
                _ => false,
            },
        },
{
    let mut content = match group_header(config, group_id) {
        Ok(h) => h,
        Err(e) => {
            return Err(e);
        },
    };
    content.append("\n");
    match format_aliases_list(config, aliases) {
        Ok(lines) => {
            content.append(lines.as_str());
            Ok(content)
        },
        Err(e) => Err(e),
    }
}

/// Like [`format_group_and_aliases`], but the ungrouped scope gets no
/// banner.
pub fn format_group_and_aliases_single_group(
    config: &Config,
    group_id: &Option<String>,
    aliases: &Vec<String>,
) -> (r: Result<String, Failure>)
    requires
        config.wf(),
    ensures
        match r {
            Ok(s) => s@ == (match opt_view(*group_id) {
                Some(g) => header_line(g, value_of(config@.groups, g)) + "\n"@,
                None => Seq::<char>::empty(),
            }) + infos_join(config@.aliases, strs_view(aliases@)),
            Err(e) => match e {
                Failure::GroupDoesNotExist => opt_view(*group_id) matches Some(g) && !has_key(
                    config@.groups,
                    g,
                ),
                Failure::AliasDoesNotExist => exists|t: int|
                    0 <= t < aliases@.len() && !has_key(
                        config@.aliases,
                        (#[trigger] aliases@[t])@,
                    ),
                _ => false,
            },
        },
{
    let mut content = String::new();
    if group_id.is_some() {
        match group_header(config, group_id) {
            Ok(h) => {
                content.append(h.as_str());
                content.append("\n");
            },
            Err(e) => {
                return Err(e);
            },
        }
    }
    match format_aliases_list(config, aliases) {
        Ok(lines) => {
            content.append(lines.as_str());
            proof {
                assert(content@ =~= (match opt_view(*group_id) {
                    Some(g) => header_line(g, value_of(config@.groups, g)) + "\n"@,
                    None => Seq::<char>::empty(),
                }) + infos_join(config@.aliases, strs_view(aliases@)));
            }
            Ok(content)
        },
        Err(e) => Err(e),
    }
}

/// The longest pattern handed to globset's matcher. Compiling a matcher
/// turns each pattern character into a small, bounded regex fragment, and
/// the regex compiler behind it aborts only past a program-size limit in
/// the tens of megabytes; a pattern this short stays orders of magnitude
/// below that, so compiling it cannot abort. Longer patterns are screened
/// out as unusable before the matcher is ever built.
pub const MAX_GLOB_PATTERN_LEN: usize = 1024;

/// Whether globset accepts the pattern; what it accepts is not restated
/// here.
pub uninterp spec fn glob_ok(pattern: Seq<char>) -> bool;

/// What globset's matcher answers for a pattern it accepted; the verdict
/// depends on the pattern and the text alone.
pub uninterp spec fn glob_match(pattern: Seq<char>, text: Seq<char>) -> bool;

/// True when the command's pattern, if any, is one the library will use:
/// short enough to compile safely, and accepted by globset.
pub open spec fn pattern_usable(pattern: Option<Seq<char>>) -> bool {
    match pattern {
        Some(p) => p.len() <= MAX_GLOB_PATTERN_LEN && glob_ok(p),
        None => true,
    }
}

/// Relies on globset's `Glob::new`: whether a pattern parses depends on the
/// pattern alone, and parsing returns a `Result` rather than aborting.
#[verifier::external_body]
fn glob_check(pattern: &str) -> (r: bool)
    ensures
        r == glob_ok(pattern@),
{
    globset::Glob::new(pattern).is_ok()
}

/// Relies on globset's `Glob::new`, `Glob::compile_matcher` and
/// `GlobMatcher::is_match`: an accepted pattern gives its verdict on the
/// text, an unparsable one gives nothing. The length bound keeps the
/// compiled matcher far below the size limit at which the matcher compiler
/// aborts (see [`MAX_GLOB_PATTERN_LEN`]).
#[verifier::external_body]
fn glob_is_match(pattern: &str, text: &str) -> (r: Option<bool>)
    requires
        pattern@.len() <= MAX_GLOB_PATTERN_LEN,
    ensures
        (r is Some) == glob_ok(pattern@),
        r matches Some(b) ==> b == glob_match(pattern@, text@),
{
    match globset::Glob::new(pattern) {
        Ok(g) => Some(g.compile_matcher().is_match(text)),
        Err(_) => None,
    }
}

/// True when a listed alias passes the command's filters: the name pattern,
/// the enabled/disabled selection, and the global selection.
pub open spec fn keep_name(
    aliases: Seq<(Seq<char>, AliasV)>,
    name: Seq<char>,
    pattern: Option<Seq<char>>,
    only_enabled: bool,
    only_disabled: bool,
    only_global: bool,
) -> bool {
    &&& match pattern {
        Some(p) => glob_match(p, name),
        None => true,
    }
    &&& if only_enabled {
        value_of(aliases, name).enabled
    } else if only_disabled {
        !value_of(aliases, name).enabled
    } else {
        true
    }
    &&& (only_global ==> value_of(aliases, name).global)
}

/// The names that pass the filters, in order.
pub open spec fn filter_names(
    aliases: Seq<(Seq<char>, AliasV)>,
    names: Seq<Seq<char>>,
    pattern: Option<Seq<char>>,
    only_enabled: bool,
    only_disabled: bool,
    only_global: bool,
) -> Seq<Seq<char>>
    decreases names.len(),
{
    if names.len() == 0 {
        Seq::<Seq<char>>::empty()
    } else {
        filter_names(aliases, names.drop_last(), pattern, only_enabled, only_disabled, only_global)
            + if keep_name(
            aliases,
            names.last(),
            pattern,
            only_enabled,
            only_disabled,
            only_global,
        ) {
            seq![names.last()]
        } else {
            Seq::<Seq<char>>::empty()
        }
    }
}

/// Keeps only the names that pass the command's filters.
///
/// Returns false, leaving the names alone, when the command's pattern is
/// unusable — overlong or not a glob; the caller decides what that means.
pub fn retain_aliases(config: &Config, aliases: &mut Vec<String>, cmd: &ListCommand) -> (ok: bool)
    requires
        config.wf(),
        forall|t: int|
            0 <= t < old(aliases)@.len() ==> has_key(
                config@.aliases,
                (#[trigger] old(aliases)@[t])@,
            ),
    ensures
        ok == pattern_usable(opt_view(cmd.pattern)),
        !ok ==> final(aliases)@ == old(aliases)@,
        ok ==> strs_view(final(aliases)@) =~= filter_names(
            config@.aliases,
            strs_view(old(aliases)@),
            opt_view(cmd.pattern),
            cmd.enabled,
            cmd.disabled,
            cmd.global,
        ),
        forall|t: int|
            0 <= t < final(aliases)@.len() ==> has_key(
                config@.aliases,
                (#[trigger] final(aliases)@[t])@,
            ),
{
    if let Some(p) = &cmd.pattern {
        if p.as_str().unicode_len() > MAX_GLOB_PATTERN_LEN || !glob_check(p.as_str()) {
            return false;
        }
    }
    let ghost names = strs_view(aliases@);
    let mut kept: Vec<String> = Vec::new();
    let n = aliases.len();
    let mut i: usize = 0;
    while i < n
        invariant
            config.wf(),
            n == aliases@.len(),
            i <= n,
            names == strs_view(aliases@),
            pattern_usable(opt_view(cmd.pattern)),
            forall|t: int|
                0 <= t < aliases@.len() ==> has_key(config@.aliases, (#[trigger] aliases@[t])@),
            forall|t: int|
                0 <= t < kept@.len() ==> has_key(config@.aliases, (#[trigger] kept@[t])@),
            strs_view(kept@) =~= filter_names(
                config@.aliases,
                names.take(i as int),
                opt_view(cmd.pattern),
                cmd.enabled,
                cmd.disabled,
                cmd.global,
            ),
        decreases n - i,
    {
        proof {
            assert(names.take(i + 1).drop_last() =~= names.take(i as int));
            assert(names.take(i + 1).last() == aliases@[i as int]@);
        }
        let name = &aliases[i];
        let pattern_pass = match &cmd.pattern {
            Some(p) => match glob_is_match(p.as_str(), name.as_str()) {
                Some(b) => b,
                None => {
                    proof {
                        assert(false);
                    }
                    false
                },
            },
            None => true,
        };
        let a = match config.aliases.get(name.as_str()) {
            Some(a) => a,
            None => {
                proof {
                    assert(has_key(config@.aliases, aliases@[i as int]@));
                    assert(false);
                }
                return false;
            },
        };
        let flag_pass = if cmd.enabled {
            a.enabled
        } else if cmd.disabled {
            !a.enabled
        } else {
            true
        };
        let global_pass = !cmd.global || a.global;
        if pattern_pass && flag_pass && global_pass {
            kept.push(name.clone());
        }
        proof {
            assert(strs_view(kept@) =~= filter_names(
                config@.aliases,
                names.take(i + 1),
                opt_view(cmd.pattern),
                cmd.enabled,
                cmd.disabled,
                cmd.global,
            ));
        }
        i = i + 1;
    }
    proof {
        assert(names.take(n as int) =~= names);
    }
    *aliases = kept;
    true
}

/// One scope's rendered block under the command's filters: the banner (the
/// ungrouped scope shows as `ungrouped`, enabled) and one line per member
/// that passes.
pub open spec fn bucket_content(
    c: crate::model::ConfigV,
    gv: Option<Seq<char>>,
    shell: ShellType,
    cmd: &ListCommand,
) -> Seq<char> {
    (match gv {
        Some(g) => header_line(g, value_of(c.groups, g)),
        None => header_line("ungrouped"@, true),
    }) + "\n"@ + infos_join(
        c.aliases,
        filter_names(
            c.aliases,
            group_members(c.aliases, gv, shell),
            opt_view(cmd.pattern),
            cmd.enabled,
            cmd.disabled,
            cmd.global,
        ),
    )
}

/// The rendered blocks of the given groups, in order.
pub open spec fn buckets_content(
    c: crate::model::ConfigV,
    groups: Seq<(Seq<char>, bool)>,
    shell: ShellType,
    cmd: &ListCommand,
) -> Seq<char>
    decreases groups.len(),
{
    if groups.len() == 0 {
        Seq::<char>::empty()
    } else {
        buckets_content(c, groups.drop_last(), shell, cmd) + bucket_content(
            c,
            Some(groups.last().0),
            shell,
            cmd,
        )
    }
}

/// What the rendering returns: the group error exactly for an absent named
/// scope, otherwise the listing text — the chosen scope's filtered members
/// under its banner, or every scope in stored order.
pub open spec fn listing_result(
    c: crate::model::ConfigV,
    cmd: &ListCommand,
    shell: ShellType,
    r: Result<String, Failure>,
) -> bool {
    match r {
        Ok(s) => match cmd.group {
            Some(gid) => {
                &&& match opt_view(gid) {
                    Some(g) => has_key(c.groups, g),
                    None => true,
                }
                &&& s@ == (match opt_view(gid) {
                    Some(g) => header_line(g, value_of(c.groups, g)) + "\n"@,
                    None => Seq::<char>::empty(),
                }) + infos_join(
                    c.aliases,
                    filter_names(
                        c.aliases,
                        group_members(c.aliases, opt_view(gid), shell),
                        opt_view(cmd.pattern),
                        cmd.enabled,
                        cmd.disabled,
                        cmd.global,
                    ),
                )
            },
            None => s@ == bucket_content(c, None, shell, cmd) + buckets_content(
                c,
                c.groups,
                shell,
                cmd,
            ),
        },
        Err(e) => {
            &&& e == Failure::GroupDoesNotExist
            &&& (cmd.group matches Some(gid) && (opt_view(gid) matches Some(g) && !has_key(
                c.groups,
                g,
            )))
        },
    }
}

/// Renders the listing a list command asks for.
///
/// With a named (or `None` for ungrouped) scope, that scope's filtered
/// members, under a banner for a named group; otherwise every scope in
/// stored order, each under its banner. The command's pattern must be
/// usable; [`list_content`] screens for that.
pub fn render_list(config: &Config, cmd: &ListCommand, shell: &ShellType) -> (r: Result<
    String,
    Failure,
>)
    requires
        config.wf(),
        pattern_usable(opt_view(cmd.pattern)),
    ensures
        listing_result(config@, cmd, *shell, r),
{
    match &cmd.group {
        Some(gid) => {
            let scope: Option<&str> = match gid {
                Some(s) => Some(s.as_str()),
                None => None,
            };
            let mut members = match get_aliases_from_single_group(config, scope, shell) {
                Ok(v) => v,
                Err(e) => {
                    return Err(e);
                },
            };
            proof {
                lemma_members_in_keys(config@.aliases, opt_str_view(scope), *shell);
                assert forall|t: int| 0 <= t < members@.len() implies has_key(
                    config@.aliases,
                    (#[trigger] members@[t])@,
                ) by {
                    assert(strs_view(members@)[t] == members@[t]@);
                }
            }
            let ok = retain_aliases(config, &mut members, cmd);
            proof {
                assert(ok);
            }
            match format_group_and_aliases_single_group(config, gid, &members) {
                Ok(s) => Ok(s),
                Err(_) => {
                    proof {
                        assert(false);
                    }
                    Err(Failure::UnexpectedBehavior)
                },
            }
        },
        None => {
            let buckets = get_all_aliases_grouped(config, shell);
            let mut content = String::new();
            let nb = buckets.len();
            let mut i: usize = 0;
            while i < nb
                invariant
                    config.wf(),
                    pattern_usable(opt_view(cmd.pattern)),
                    nb == buckets@.len(),
                    i <= nb,
                    nb == 1 + config@.groups.len(),
                    buckets@[0].0 is None,
                    strs_view(buckets@[0].1@) =~= group_members(config@.aliases, None, *shell),
                    forall|k: int|
                        1 <= k < nb ==> opt_view((#[trigger] buckets@[k]).0) == Some(
                            config@.groups[k - 1].0,
                        ) && strs_view(buckets@[k].1@) =~= group_members(
                            config@.aliases,
                            Some(config@.groups[k - 1].0),
                            *shell,
                        ),
                    content@ == if i == 0 {
                        Seq::<char>::empty()
                    } else {
                        bucket_content(config@, None, *shell, cmd) + buckets_content(
                            config@,
                            config@.groups.take(i - 1),
                            *shell,
                            cmd,
                        )
                    },
                decreases nb - i,
            {
                let ghost gv = opt_view(buckets@[i as int].0);
                let mut names = buckets[i].1.clone();
                proof {
                    assert(names@ == buckets@[i as int].1@);
                    lemma_members_in_keys(config@.aliases, gv, *shell);
                    assert forall|t: int| 0 <= t < names@.len() implies has_key(
                        config@.aliases,
                        (#[trigger] names@[t])@,
                    ) by {
                        assert(strs_view(names@)[t] == names@[t]@);
                        assert(has_key(config@.aliases, strs_view(names@)[t]));
                    }
                }
                let ok = retain_aliases(config, &mut names, cmd);
                proof {
                    assert(ok);
                    if i > 0 {
                        crate::model::lemma_key_index(
                            config@.groups,
                            config@.groups[i - 1].0,
                            i - 1,
                        );
                    }
                }
                let gid_ref = &buckets[i].0;
                match format_group_and_aliases(config, gid_ref, &names) {
                    Ok(block) => {
                        content.append(block.as_str());
                    },
                    Err(_) => {
                        proof {
                            assert(false);
                        }
                        return Err(Failure::UnexpectedBehavior);
                    },
                }
                proof {
                    if i > 0 {
                        assert(config@.groups.take(i as int).drop_last() =~= config@.groups.take(
                            i - 1,
                        ));
                        assert(content@ =~= bucket_content(config@, None, *shell, cmd)
                            + buckets_content(
                            config@,
                            config@.groups.take(i as int),
                            *shell,
                            cmd,
                        ));
                    } else {
                        assert(content@ =~= bucket_content(config@, None, *shell, cmd));
                    }
                }
                i = i + 1;
            }
            proof {
                assert(config@.groups.take(nb - 1) =~= config@.groups);
            }
            Ok(content)
        },
    }
}

/// Renders the listing, first screening the command's pattern: `None` when
/// the pattern is unusable — overlong or rejected by globset — otherwise
/// the rendering's own result.
pub fn list_content(config: &Config, cmd: &ListCommand, shell: &ShellType) -> (r: Option<
    Result<String, Failure>,
>)
    requires
        config.wf(),
    ensures
        (r is None) == !pattern_usable(opt_view(cmd.pattern)),
        r matches Some(res) ==> listing_result(config@, cmd, *shell, res),
{
    if let Some(p) = &cmd.pattern {
        if p.as_str().unicode_len() > MAX_GLOB_PATTERN_LEN || !glob_check(p.as_str()) {
            return None;
        }
    }
    Some(render_list(config, cmd, shell))
}

} // verus!
