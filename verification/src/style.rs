//! Colored status symbols and per-alias display lines.

use vstd::prelude::*;
use vstd::string::StringExecFns;

use crate::model::{has_key, value_of, AliasV, Config};
use crate::outcome::Failure;

verus! {

/// The enabled/disabled symbol: a bold green check or a bold red cross.
pub open spec fn enabled_sym(enabled: bool) -> Seq<char> {
    if enabled {
        "\u{1b}[1m\u{1b}[32m"@ + "\u{2714}"@ + "\u{1b}[39m\u{1b}[0m"@
    } else {
        "\u{1b}[1m\u{1b}[31m"@ + "\u{2718}"@ + "\u{1b}[39m\u{1b}[0m"@
    }
}

/// The global-alias mark: a bold blue ring after a space, or nothing.
pub open spec fn globe_sym(global: bool) -> Seq<char> {
    if global {
        "\u{1b}[1m\u{1b}[34m"@ + " \u{29be}"@ + "\u{1b}[39m\u{1b}[0m"@
    } else {
        Seq::<char>::empty()
    }
}

/// Relies on owo_colors: `s.green().bold()` renders as the bold and green
/// foreground escapes, `s`, the default-foreground escape, and the reset.
#[verifier::external_body]
fn style_green_bold(s: &str) -> (r: String)
    ensures
        r@ == "\u{1b}[1m\u{1b}[32m"@ + s@ + "\u{1b}[39m\u{1b}[0m"@,
{
    owo_colors::OwoColorize::bold(&owo_colors::OwoColorize::green(&s)).to_string()
}

/// Relies on owo_colors: `s.red().bold()` renders as the bold and red
/// foreground escapes, `s`, the default-foreground escape, and the reset.
#[verifier::external_body]
fn style_red_bold(s: &str) -> (r: String)
    ensures
        r@ == "\u{1b}[1m\u{1b}[31m"@ + s@ + "\u{1b}[39m\u{1b}[0m"@,
{
    owo_colors::OwoColorize::bold(&owo_colors::OwoColorize::red(&s)).to_string()
}

/// Relies on owo_colors: `s.blue().bold()` renders as the bold and blue
/// foreground escapes, `s`, the default-foreground escape, and the reset.
#[verifier::external_body]
fn style_blue_bold(s: &str) -> (r: String)
    ensures
        r@ == "\u{1b}[1m\u{1b}[34m"@ + s@ + "\u{1b}[39m\u{1b}[0m"@,
{
    owo_colors::OwoColorize::bold(&owo_colors::OwoColorize::blue(&s)).to_string()
}

/// The colored symbol for an enabled flag.
pub fn enabled_symbol(enabled: bool) -> (r: String)
    ensures
        r@ == enabled_sym(enabled),
{
    if enabled {
        style_green_bold("\u{2714}")
    } else {
        style_red_bold("\u{2718}")
    }
}

/// The colored mark for a global alias, empty otherwise.
pub fn globe_symbol(global: bool) -> (r: String)
    ensures
        r@ == globe_sym(global),
{
    if global {
        style_blue_bold(" \u{29be}")
    } else {
        String::new()
    }
}

/// The one-line description of an alias: its symbols, name, and command.
pub open spec fn alias_info(name: Seq<char>, a: AliasV) -> Seq<char> {
    enabled_sym(a.enabled) + globe_sym(a.global) + " "@ + name + " -> "@ + a.command
}

/// Describes one alias in a single line.
///
/// Fails with `AliasDoesNotExist` when the name is unknown.
pub fn format_alias_info(config: &Config, alias: &str) -> (r: Result<String, Failure>)
    requires
        config.wf(),
    ensures
        match r {
            Ok(s) => has_key(config@.aliases, alias@) && s@ == alias_info(
                alias@,
                value_of(config@.aliases, alias@),
            ),
            Err(e) => e == Failure::AliasDoesNotExist && !has_key(config@.aliases, alias@),
        },
{
    match config.aliases.get(alias) {
        Some(info) => {
            let mut s = enabled_symbol(info.enabled);
            let globe = globe_symbol(info.global);
            s.append(globe.as_str());
            s.append(" ");
            s.append(alias);
            s.append(" -> ");
            s.append(info.command.as_str());
            proof {
                assert(s@ =~= alias_info(alias@, value_of(config@.aliases, alias@)));
            }
            Ok(s)
        },
        None => Err(Failure::AliasDoesNotExist),
    }
}

} // verus!
