//! How the shell of a pane is started.

use vstd::prelude::*;

use crate::text::owned;

verus! {

/// The program a pane runs, its arguments, the directory it starts in, and
/// the file its raw output is appended to for debugging, if any.
#[derive(Debug, Clone)]
pub struct ShellProcessConfig {
    pub program: String,
    pub args: Vec<String>,
    pub initial_cwd: String,
    pub debug_log_path: Option<String>,
}

/// The shell run when `$SHELL` is not set.
pub const FALLBACK_SHELL: &'static str = "/bin/sh";

/// The shell configuration of the program: the shell named by `$SHELL`
/// (`shell_var`, none when unset) or else `/bin/sh`, run interactively
/// (`-i`) from `cwd`.
pub fn default_shell_config(shell_var: Option<String>, cwd: String, debug_log_path: Option<String>) -> (c:
    ShellProcessConfig)
    ensures
        c.program@ == (match shell_var {
            Some(s) => s@,
            None => FALLBACK_SHELL@,
        }),
        c.args@.len() == 1,
        c.args@[0]@ == "-i"@,
        c.initial_cwd@ == cwd@,
        c.debug_log_path == debug_log_path,
{
    let program = match shell_var {
        Some(s) => s,
        None => owned(FALLBACK_SHELL),
    };
    let mut args: Vec<String> = Vec::new();
    args.push(owned("-i"));
    ShellProcessConfig { program, args, initial_cwd: cwd, debug_log_path }
}

/// How an interrupt reaches the foreground job of a pane.
#[derive(Debug, Clone, Copy, PartialEq, Eq, Structural)]
pub enum InterruptDelivery {
    /// Type Ctrl+C (byte 3) into the terminal: the shell itself is in the
    /// foreground, or the foreground group is unknown.
    WriteControlC,
    /// Send SIGINT to this foreground process group.
    SignalGroup(i32),
}

/// How to interrupt, given the terminal's foreground process group, if
/// known, and the shell's own group.
pub fn interrupt_delivery(foreground_group: Option<i32>, shell_group: i32) -> (d: InterruptDelivery)
    ensures
        d == (match foreground_group {
            Some(g) => if g == shell_group {
                InterruptDelivery::WriteControlC
            } else {
                InterruptDelivery::SignalGroup(g)
            },
            None => InterruptDelivery::WriteControlC,
        }),
{
    match foreground_group {
        Some(g) => if g == shell_group {
            InterruptDelivery::WriteControlC
        } else {
            InterruptDelivery::SignalGroup(g)
        },
        None => InterruptDelivery::WriteControlC,
    }
}

/// The group an interrupt is aimed at when it is not the shell's: the
/// known foreground group, unless that is the shell's own.
pub fn interrupted_group(foreground_group: Option<i32>, shell_group: i32) -> (g: Option<i32>)
    ensures
        g == (match foreground_group {
            Some(f) => if f != shell_group {
                Some(f)
            } else {
                None
            },
            None => None,
        }),
{
    match foreground_group {
        Some(f) => if f != shell_group {
            Some(f)
        } else {
            None
        },
        None => None,
    }
}

} // verus!
