//! The errors of the program's parts and the messages they show.

use vstd::prelude::*;

use crate::base::{PaneId, TabId};
use crate::layout::LayoutError;
use crate::session::{pane_id_text, push_pane_id, push_tab_id, tab_id_text};
use crate::text::{concat, push_str};

verus! {

/// Why an operation on the tabs failed.
#[derive(Debug, Clone, PartialEq, Eq)]
pub enum TabsError {
    TabNotFound(TabId),
    PaneNotFound(PaneId),
    Layout(LayoutError),
    Process(String),
    CannotCloseLastTab,
}

/// A layout error as it prints itself for debugging.
pub open spec fn layout_error_text(e: LayoutError) -> Seq<char> {
    match e {
        LayoutError::EmptyLayout => "EmptyLayout"@,
        LayoutError::PaneNotFound(p) => "PaneNotFound("@ + pane_id_text(p) + ")"@,
        LayoutError::CannotSplitMissingPane(p) => "CannotSplitMissingPane("@ + pane_id_text(p) + ")"@,
        LayoutError::CannotCloseLastPane => "CannotCloseLastPane"@,
    }
}

/// The message of an error of the tabs.
pub open spec fn tabs_error_text(e: TabsError) -> Seq<char> {
    match e {
        TabsError::TabNotFound(t) => "tab not found: "@ + tab_id_text(t),
        TabsError::PaneNotFound(p) => "pane not found: "@ + pane_id_text(p),
        TabsError::Layout(l) => "layout error: "@ + layout_error_text(l),
        TabsError::Process(d) => "process error: "@ + d@,
        TabsError::CannotCloseLastTab => "cannot close last tab"@,
    }
}

impl TabsError {
    /// The message shown for the error.
    pub fn message(&self) -> (s: String)
        ensures
            s@ == tabs_error_text(*self),
    {
        let mut s = String::new();
        match self {
            TabsError::TabNotFound(t) => {
                push_str(&mut s, "tab not found: ");
                push_tab_id(&mut s, *t);
            },
            TabsError::PaneNotFound(p) => {
                push_str(&mut s, "pane not found: ");
                push_pane_id(&mut s, *p);
            },
            TabsError::Layout(l) => {
                push_str(&mut s, "layout error: ");
                match l {
                    LayoutError::EmptyLayout => push_str(&mut s, "EmptyLayout"),
                    LayoutError::PaneNotFound(p) => {
                        push_str(&mut s, "PaneNotFound(");
                        push_pane_id(&mut s, *p);
                        push_str(&mut s, ")");
                    },
                    LayoutError::CannotSplitMissingPane(p) => {
                        push_str(&mut s, "CannotSplitMissingPane(");
                        push_pane_id(&mut s, *p);
                        push_str(&mut s, ")");
                    },
                    LayoutError::CannotCloseLastPane => push_str(&mut s, "CannotCloseLastPane"),
                }
            },
            TabsError::Process(d) => {
                push_str(&mut s, "process error: ");
                push_str(&mut s, d.as_str());
            },
            TabsError::CannotCloseLastTab => push_str(&mut s, "cannot close last tab"),
        }
        proof {
            assert(s@ =~= tabs_error_text(*self));
        }
        s
    }
}

/// Why the saved state could not be read or written. The message of a
/// read or write error names neither the path nor the cause.
#[derive(Debug, Clone, PartialEq, Eq)]
pub enum StateError {
    Config(String),
    Serialize(String),
    Deserialize(String),
    Read { path: String, source: String },
    Write { path: String, source: String },
}

impl StateError {
    /// The message shown for the error.
    pub fn message(&self) -> (s: &'static str)
        ensures
            s@ == state_error_message(*self)@,
    {
        match self {
            StateError::Config(_) => "failed to resolve mtrm paths",
            StateError::Serialize(_) => "failed to serialize snapshot",
            StateError::Deserialize(_) => "failed to deserialize snapshot",
            StateError::Read { .. } => "failed to read state file",
            StateError::Write { .. } => "failed to write state file",
        }
    }
}

/// The fixed message of each state error.
pub open spec fn state_error_message(e: StateError) -> &'static str {
    match e {
        StateError::Config(_) => "failed to resolve mtrm paths",
        StateError::Serialize(_) => "failed to serialize snapshot",
        StateError::Deserialize(_) => "failed to deserialize snapshot",
        StateError::Read { .. } => "failed to read state file",
        StateError::Write { .. } => "failed to write state file",
    }
}

/// Why a shell process operation failed. The message names the operation
/// only, never the detail.
#[derive(Debug, Clone, PartialEq, Eq)]
pub enum ProcessError {
    Spawn(String),
    Write(String),
    Read(String),
    Interrupt(String),
    CurrentDir(String),
}

/// The fixed message of each process error.
pub open spec fn process_error_message(e: ProcessError) -> &'static str {
    match e {
        ProcessError::Spawn(_) => "failed to spawn shell",
        ProcessError::Write(_) => "failed to write to pty",
        ProcessError::Read(_) => "failed to read from pty",
        ProcessError::Interrupt(_) => "failed to send interrupt",
        ProcessError::CurrentDir(_) => "failed to resolve cwd",
    }
}

impl ProcessError {
    /// The message shown for the error.
    pub fn message(&self) -> (s: &'static str)
        ensures
            s@ == process_error_message(*self)@,
    {
        match self {
            ProcessError::Spawn(_) => "failed to spawn shell",
            ProcessError::Write(_) => "failed to write to pty",
            ProcessError::Read(_) => "failed to read from pty",
            ProcessError::Interrupt(_) => "failed to send interrupt",
            ProcessError::CurrentDir(_) => "failed to resolve cwd",
        }
    }
}

/// The error of a platform on which the working directory of a process
/// cannot be found.
pub fn unsupported_current_dir() -> (e: ProcessError)
    ensures
        e matches ProcessError::CurrentDir(d) && d@ == "cwd resolution unsupported on this platform"@,
{
    ProcessError::CurrentDir(crate::text::owned("cwd resolution unsupported on this platform"))
}

/// Why the program stopped. The message names the kind of failure only.
#[derive(Debug, Clone, PartialEq, Eq)]
pub enum AppError {
    Config(String),
    State(String),
    Tabs(String),
    TerminalIo(String),
}

/// The fixed message of each application error.
pub open spec fn app_error_message(e: AppError) -> &'static str {
    match e {
        AppError::Config(_) => "configuration error",
        AppError::State(_) => "state error",
        AppError::Tabs(_) => "tabs error",
        AppError::TerminalIo(_) => "terminal io error",
    }
}

impl AppError {
    /// The message shown for the error.
    pub fn message(&self) -> (s: &'static str)
        ensures
            s@ == app_error_message(*self)@,
    {
        match self {
            AppError::Config(_) => "configuration error",
            AppError::State(_) => "state error",
            AppError::Tabs(_) => "tabs error",
            AppError::TerminalIo(_) => "terminal io error",
        }
    }
}

/// Why the clipboard failed.
#[derive(Debug, Clone, PartialEq, Eq)]
pub enum ClipboardError {
    Read(String),
    Write(String),
    Unavailable,
}

/// The message of a clipboard error: the operation, then its detail.
pub open spec fn clipboard_error_message(e: ClipboardError) -> Seq<char> {
    match e {
        ClipboardError::Read(d) => "failed to read from system clipboard: "@ + d@,
        ClipboardError::Write(d) => "failed to write to system clipboard: "@ + d@,
        ClipboardError::Unavailable => "system clipboard is unavailable"@,
    }
}

impl ClipboardError {
    /// The message shown for the error.
    pub fn message(&self) -> (s: String)
        ensures
            s@ == clipboard_error_message(*self),
    {
        match self {
            ClipboardError::Read(d) => concat("failed to read from system clipboard: ", d.as_str()),
            ClipboardError::Write(d) => concat("failed to write to system clipboard: ", d.as_str()),
            ClipboardError::Unavailable => {
                crate::text::owned("system clipboard is unavailable")
            },
        }
    }
}

/// The notice shown when the clipboard fails.
pub fn notice_for_clipboard_error(error: &ClipboardError) -> (s: &'static str)
    ensures
        s@ == (match *error {
            ClipboardError::Unavailable => "Clipboard is unavailable",
            ClipboardError::Read(_) => "Failed to read from clipboard",
            ClipboardError::Write(_) => "Failed to write to clipboard",
        })@,
{
    match error {
        ClipboardError::Unavailable => "Clipboard is unavailable",
        ClipboardError::Read(_) => "Failed to read from clipboard",
        ClipboardError::Write(_) => "Failed to write to clipboard",
    }
}

/// Why the data directory could not be had.
#[derive(Debug, Clone, PartialEq, Eq)]
pub enum ConfigError {
    HomeDirUnavailable,
    CreateDir { path: String, source: String },
}

impl ConfigError {
    /// The message shown for the error.
    pub fn message(&self) -> (s: String)
        ensures
            *self == ConfigError::HomeDirUnavailable ==> s@ == "home directory is unavailable"@,
            self matches ConfigError::CreateDir { path, source } ==> s@ == "failed to create directory "@ + path@ + ": "@ + source@,
    {
        match self {
            ConfigError::HomeDirUnavailable => {
                crate::text::owned("home directory is unavailable")
            },
            ConfigError::CreateDir { path, source } => {
                let a = concat("failed to create directory ", path.as_str());
                let b = concat(a.as_str(), ": ");
                concat(b.as_str(), source.as_str())
            },
        }
    }
}

} // verus!
