//! The shell dialects the manager can feed.

use vstd::prelude::*;
use vstd::string::StringSliceAdditionalSpecFns;

verus! {

/// Which shell dialect is active; only `Zsh` supports global aliases, and
/// nothing else in the core depends on the dialect.
#[derive(Debug, Clone, Copy, PartialEq, Eq, Structural)]
pub enum ShellType {
    Bash,
    Zsh,
}

/// The dialect assumed when none was supplied.
pub const DEFAULT_SHELL: ShellType = ShellType::Bash;

/// Environment variable naming the active dialect.
pub const SHELL_ENV_VAR: &'static str = "ALIASMGR_SHELL";

/// The upper-case name of a dialect.
pub open spec fn shell_name(s: ShellType) -> Seq<char> {
    match s {
        ShellType::Bash => "BASH"@,
        ShellType::Zsh => "ZSH"@,
    }
}

impl ShellType {
    /// The dialect's upper-case name.
    pub fn display_name(&self) -> (r: String)
        ensures
            r@ == shell_name(*self),
    {
        match self {
            ShellType::Bash => "BASH".to_owned(),
            ShellType::Zsh => "ZSH".to_owned(),
        }
    }
}

/// A byte with an ASCII capital folded to its small form.
pub open spec fn lower8(b: u8) -> u8 {
    if 65 <= b && b <= 90 {
        (b + 32) as u8
    } else {
        b
    }
}

/// The dialect a name selects, ASCII-case-insensitively: `bash` or `zsh`.
pub open spec fn shell_of_name(s: Seq<u8>) -> Option<ShellType> {
    if s.len() == 4 && lower8(s[0]) == 98 && lower8(s[1]) == 97 && lower8(s[2]) == 115 && lower8(
        s[3],
    ) == 104 {
        Some(ShellType::Bash)
    } else if s.len() == 3 && lower8(s[0]) == 122 && lower8(s[1]) == 115 && lower8(s[2]) == 104 {
        Some(ShellType::Zsh)
    } else {
        None
    }
}

/// Folds one ASCII capital.
fn lower_byte(b: u8) -> (r: u8)
    ensures
        r == lower8(b),
{
    if b >= 65 && b <= 90 {
        b + 32
    } else {
        b
    }
}

/// Reads a dialect name, ignoring ASCII case; anything but `bash` and `zsh`
/// is unknown.
pub fn parse_shell(name: &str) -> (r: Option<ShellType>)
    ensures
        r == shell_of_name(name.spec_bytes()),
{
    let bytes = name.as_bytes();
    if bytes.len() == 4 {
        if lower_byte(bytes[0]) == 98 && lower_byte(bytes[1]) == 97 && lower_byte(bytes[2]) == 115
            && lower_byte(bytes[3]) == 104 {
            return Some(ShellType::Bash);
        }
        None
    } else if bytes.len() == 3 {
        if lower_byte(bytes[0]) == 122 && lower_byte(bytes[1]) == 115 && lower_byte(bytes[2])
            == 104 {
            return Some(ShellType::Zsh);
        }
        None
    } else {
        None
    }
}

/// True when an alias can be fed to the given dialect: a global alias needs
/// `Zsh`.
pub open spec fn shell_supports(global: bool, shell: ShellType) -> bool {
    !(global && shell != ShellType::Zsh)
}

} // verus!
