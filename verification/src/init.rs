//! The shell-initialization script handed to a new session.

use vstd::prelude::*;
use vstd::string::StringExecFns;

use crate::commands::InitCommand;
use crate::shell::{shell_name, ShellType};

verus! {

/// The shell function wrapping the manager: it captures the statement deltas
/// from file descriptor 3 and evaluates them in the running session.
pub const ALIASMGR_SHELL_FUNCTION: &'static str = r#"
# Define the aliasmgr shell function using the helper command
# This function captures alias deltas from file descriptor 3
aliasmgr() {
    # Run aliasmgr and capture deltas from FD3
    local deltas

    # Capture output from FD3 without interfering with standard output
    {
        deltas="$("$__aliasmgr_cmd" "$@" 3>&1 1>&4)"
    } 4>&1

    # Apply alias deltas if any
    if [ -n "$deltas" ]; then
        eval "$deltas"
    fi
}
"#;

/// The command that locates the manager binary under each dialect.
pub open spec fn helper_cmd(shell: ShellType) -> Seq<char> {
    match shell {
        ShellType::Zsh => "whence -p aliasmgr"@,
        ShellType::Bash => "type -P aliasmgr"@,
    }
}

/// The locating command for the given dialect.
pub fn helper_shell_command(shell: &ShellType) -> (r: &'static str)
    ensures
        r@ == helper_cmd(*shell),
{
    match shell {
        ShellType::Zsh => "whence -p aliasmgr",
        ShellType::Bash => "type -P aliasmgr",
    }
}

/// The whole initialization script: exports, the helper lookup, the shell
/// function, and a full resync on startup.
pub open spec fn init_script(shell: ShellType, config: Option<Seq<char>>) -> Seq<char> {
    "# Alias Manager Initialization Script\n"@ + "export ALIASMGR_SHELL="@ + shell_name(shell)
        + "\n"@ + (match config {
        Some(p) => "export ALIASMGR_CONFIG_PATH=\""@ + p + "\"\n"@,
        None => Seq::<char>::empty(),
    }) + "\n"@ + "# Alias helper shell command\n"@ + "__aliasmgr_cmd=$("@ + helper_cmd(shell)
        + ")"@ + ALIASMGR_SHELL_FUNCTION@ + "\n# Sync aliases on shell startup\n"@
        + "aliasmgr sync"@
}

/// Renders the initialization script for the chosen dialect and optional
/// custom configuration path.
pub fn handle_init(cmd: InitCommand) -> (r: String)
    ensures
        r@ == init_script(cmd.shell, crate::model::opt_view(cmd.config)),
{
    let mut content = String::new();
    content.append("# Alias Manager Initialization Script\n");
    content.append("export ALIASMGR_SHELL=");
    let name = cmd.shell.display_name();
    content.append(name.as_str());
    content.append("\n");
    if let Some(config_path) = &cmd.config {
        content.append("export ALIASMGR_CONFIG_PATH=\"");
        content.append(config_path.as_str());
        content.append("\"\n");
    }
    content.append("\n");
    content.append("# Alias helper shell command\n");
    content.append("__aliasmgr_cmd=$(");
    content.append(helper_shell_command(&cmd.shell));
    content.append(")");
    content.append(ALIASMGR_SHELL_FUNCTION);
    content.append("\n# Sync aliases on shell startup\n");
    content.append("aliasmgr sync");
    proof {
        assert(content@ =~= init_script(cmd.shell, crate::model::opt_view(cmd.config)));
    }
    content
}

} // verus!
