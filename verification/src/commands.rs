//! What the layout and tab commands do to the tabs, and what the program
//! has to do about the shells of the panes they open and close.

use vstd::prelude::*;

use crate::base::{AppCommand, ClipboardCommand, LayoutCommand, PaneId, TabCommand, TabId};
use crate::selection::SelectionState;
use crate::errors::TabsError;
use crate::layout::Rect;
use crate::tabs::{
    activate_outcome, close_pane_outcome, close_tab_outcome, move_focus_outcome, resize_outcome, scroll_down_lines_outcome,
    scroll_pages_outcome, scroll_to_bottom_outcome, scroll_up_lines_outcome, split_outcome, tab_index, TabManager,
    lemma_tab_index_of_position,
};

verus! {

/// What a layout command did: whether the session is to be saved and the
/// screen redrawn, and the pane whose shell is to be started or stopped.
#[derive(Debug, Clone, Copy, PartialEq, Eq, Structural)]
pub struct LayoutCommandResult {
    pub persist: bool,
    pub ui_dirty: bool,
    pub opened: Option<PaneId>,
    pub closed: Option<PaneId>,
}

/// A command result with nothing opened or closed.
pub open spec fn plain_result(persist: bool, ui_dirty: bool) -> LayoutCommandResult {
    LayoutCommandResult { persist, ui_dirty, opened: None, closed: None }
}

/// `r` with what succeeded forgotten.
pub open spec fn unit_result(r: Result<LayoutCommandResult, TabsError>) -> Result<(), TabsError> {
    match r {
        Ok(_) => Ok(()),
        Err(e) => Err(e),
    }
}

/// Applies a layout command to the active tab; `area` is where the tab is
/// drawn, `split_cwd` the working directory of the shell of a new pane. A
/// split needs a pane identifier left and fewer than 65535 panes in the
/// layout, so that the layout stays under the 65536 panes that its
/// placements need.
pub fn handle_layout_command(tabs: &mut TabManager, command: LayoutCommand, area: Rect, split_cwd: String) -> (r: Result<LayoutCommandResult, TabsError>)
    requires
        old(tabs).wf(),
        command is SplitFocused ==> old(tabs).allocator().next_pane_raw() < u64::MAX && old(tabs).active_model().root.panes().len() < 65535,
    ensures
        match command {
            LayoutCommand::SplitFocused(d) => match r {
                Ok(res) => res.opened matches Some(id) && res == (LayoutCommandResult { persist: true, ui_dirty: true, opened: Some(id), closed: None })
                    && split_outcome(*old(tabs), *final(tabs), d, split_cwd@, Ok(id)),
                Err(e) => split_outcome(*old(tabs), *final(tabs), d, split_cwd@, Err(e)),
            },
            LayoutCommand::CloseFocusedPane => match r {
                Ok(res) => res.closed matches Some(id) && res == (LayoutCommandResult { persist: true, ui_dirty: true, opened: None, closed: Some(id) })
                    && close_pane_outcome(*old(tabs), *final(tabs), Ok(id)),
                Err(e) => close_pane_outcome(*old(tabs), *final(tabs), Err(e)),
            },
            LayoutCommand::MoveFocus(d) => r == Ok::<LayoutCommandResult, TabsError>(plain_result(true, true)) && exists|moved: Result<PaneId, TabsError>|
                #[trigger] move_focus_outcome(*old(tabs), *final(tabs), d, moved),
            LayoutCommand::ResizeFocused(d) => match r {
                Ok(res) => res == plain_result(res.persist, res.persist) && resize_outcome(*old(tabs), *final(tabs), d, area, Ok(res.persist)),
                Err(e) => resize_outcome(*old(tabs), *final(tabs), d, area, Err(e)),
            },
            LayoutCommand::ScrollUpLines(n) => scroll_up_lines_outcome(*old(tabs), *final(tabs), n, unit_result(r))
                && (r is Ok ==> r == Ok::<LayoutCommandResult, TabsError>(plain_result(false, true))),
            LayoutCommand::ScrollDownLines(n) => scroll_down_lines_outcome(*old(tabs), *final(tabs), n, unit_result(r))
                && (r is Ok ==> r == Ok::<LayoutCommandResult, TabsError>(plain_result(false, true))),
            LayoutCommand::ScrollUpPages(n) => scroll_pages_outcome(*old(tabs), *final(tabs), n, true, unit_result(r))
                && (r is Ok ==> r == Ok::<LayoutCommandResult, TabsError>(plain_result(false, true))),
            LayoutCommand::ScrollDownPages(n) => scroll_pages_outcome(*old(tabs), *final(tabs), n, false, unit_result(r))
                && (r is Ok ==> r == Ok::<LayoutCommandResult, TabsError>(plain_result(false, true))),
            LayoutCommand::ScrollToBottom => scroll_to_bottom_outcome(*old(tabs), *final(tabs), unit_result(r))
                && (r is Ok ==> r == Ok::<LayoutCommandResult, TabsError>(plain_result(false, true))),
        },
{
    match command {
        LayoutCommand::SplitFocused(direction) => match tabs.split_active_pane(direction, split_cwd) {
            Ok(id) => Ok(LayoutCommandResult { persist: true, ui_dirty: true, opened: Some(id), closed: None }),
            Err(e) => Err(e),
        },
        LayoutCommand::CloseFocusedPane => match tabs.close_active_pane() {
            Ok(id) => Ok(LayoutCommandResult { persist: true, ui_dirty: true, opened: None, closed: Some(id) }),
            Err(e) => Err(e),
        },
        LayoutCommand::MoveFocus(direction) => {
            let moved = tabs.move_focus(direction);
            match moved {
                Ok(_) => Ok(LayoutCommandResult { persist: true, ui_dirty: true, opened: None, closed: None }),
                Err(e) => Err(e),
            }
        },
        LayoutCommand::ResizeFocused(direction) => match tabs.resize_active_pane(direction, area) {
            Ok(changed) => Ok(LayoutCommandResult { persist: changed, ui_dirty: changed, opened: None, closed: None }),
            Err(e) => Err(e),
        },
        LayoutCommand::ScrollUpLines(lines) => match tabs.scroll_active_pane_up_lines(lines) {
            Ok(()) => Ok(LayoutCommandResult { persist: false, ui_dirty: true, opened: None, closed: None }),
            Err(e) => Err(e),
        },
        LayoutCommand::ScrollDownLines(lines) => match tabs.scroll_active_pane_down_lines(lines) {
            Ok(()) => Ok(LayoutCommandResult { persist: false, ui_dirty: true, opened: None, closed: None }),
            Err(e) => Err(e),
        },
        LayoutCommand::ScrollUpPages(pages) => match tabs.scroll_active_pane_up_pages(pages) {
            Ok(()) => Ok(LayoutCommandResult { persist: false, ui_dirty: true, opened: None, closed: None }),
            Err(e) => Err(e),
        },
        LayoutCommand::ScrollDownPages(pages) => match tabs.scroll_active_pane_down_pages(pages) {
            Ok(()) => Ok(LayoutCommandResult { persist: false, ui_dirty: true, opened: None, closed: None }),
            Err(e) => Err(e),
        },
        LayoutCommand::ScrollToBottom => match tabs.scroll_active_pane_to_bottom() {
            Ok(()) => Ok(LayoutCommandResult { persist: false, ui_dirty: true, opened: None, closed: None }),
            Err(e) => Err(e),
        },
    }
}

/// What a tab command did: the pane whose shell is to be started, and the
/// panes whose shells are to be stopped.
#[derive(Debug, Clone, PartialEq, Eq)]
pub struct TabCommandResult {
    pub opened: Option<PaneId>,
    pub closed: Vec<PaneId>,
}

/// The position after `i` among `len`, going round.
pub open spec fn next_index(i: int, len: int) -> int {
    if i + 1 == len {
        0
    } else {
        i + 1
    }
}

/// The position before `i` among `len`, going round.
pub open spec fn previous_index(i: int, len: int) -> int {
    if i == 0 {
        len - 1
    } else {
        i - 1
    }
}

/// The tab a cycling command goes to: the one after (or before) the first
/// tab with the identifier of the active one.
pub open spec fn cycle_target(t: TabManager, forward: bool) -> TabId {
    let ts = t.tabs();
    let i = tab_index(ts, t.active_model().id)->0;
    ts[if forward { next_index(i, ts.len() as int) } else { previous_index(i, ts.len() as int) }].id
}

/// `r`, a unit result, as the activation gave it.
pub open spec fn activation_of(r: Result<TabCommandResult, TabsError>) -> Result<(), TabsError> {
    match r {
        Ok(_) => Ok(()),
        Err(e) => Err(e),
    }
}

/// Applies a tab command; `cwd` is the working directory of the shell of a
/// new tab's pane.
pub fn handle_tab_command(tabs: &mut TabManager, command: TabCommand, cwd: String) -> (r: Result<TabCommandResult, TabsError>)
    requires
        old(tabs).wf(),
        command is NewTab ==> old(tabs).allocator().next_tab_raw() < u64::MAX && old(tabs).allocator().next_pane_raw() < u64::MAX,
    ensures
        final(tabs).wf(),
        match command {
            TabCommand::NewTab => r matches Ok(res) && res.opened == Some(final(tabs).active_model().focused) && res.closed@.len() == 0
                && final(tabs).tabs().len() == old(tabs).tabs().len() + 1
                && final(tabs).tabs().take(old(tabs).tabs().len() as int) == old(tabs).tabs()
                && final(tabs).active() == old(tabs).tabs().len()
                && final(tabs).active_model().id@ == old(tabs).allocator().next_tab_raw()
                && final(tabs).active_model().focused@ == old(tabs).allocator().next_pane_raw()
                && final(tabs).active_model().panes.len() == 1
                && final(tabs).active_model().panes[0].cwd == cwd@,
            TabCommand::CloseCurrentTab => close_tab_outcome(*old(tabs), *final(tabs), match r {
                Ok(_) => Ok::<TabId, TabsError>(old(tabs).active_model().id),
                Err(e) => Err(e),
            }) && (r matches Ok(res) ==> res.opened is None && res.closed@.len() == old(tabs).active_model().panes.len()
                && forall|j: int| 0 <= j < res.closed@.len() ==> res.closed@[j] == (#[trigger] old(tabs).active_model().panes[j]).id),
            TabCommand::NextTab => activate_outcome(*old(tabs), *final(tabs), cycle_target(*old(tabs), true), activation_of(r))
                && (r matches Ok(res) ==> res.opened is None && res.closed@.len() == 0),
            TabCommand::PreviousTab => activate_outcome(*old(tabs), *final(tabs), cycle_target(*old(tabs), false), activation_of(r))
                && (r matches Ok(res) ==> res.opened is None && res.closed@.len() == 0),
            TabCommand::Activate(id) => activate_outcome(*old(tabs), *final(tabs), id, activation_of(r))
                && (r matches Ok(res) ==> res.opened is None && res.closed@.len() == 0),
        },
{
    match command {
        TabCommand::NewTab => {
            let _ = tabs.new_tab(cwd);
            let pane = tabs.active_pane_id();
            Ok(TabCommandResult { opened: Some(pane), closed: Vec::new() })
        },
        TabCommand::CloseCurrentTab => {
            let panes = tabs.active_tab_pane_ids();
            match tabs.close_active_tab() {
                Ok(_) => Ok(TabCommandResult { opened: None, closed: panes }),
                Err(e) => Err(e),
            }
        },
        TabCommand::NextTab | TabCommand::PreviousTab => {
            let forward = command == TabCommand::NextTab;
            let ids = tabs.tab_ids();
            let current = tabs.active_tab_id();
            let ghost ts = tabs.tabs();
            let len = ids.len();
            let mut index: usize = 0;
            while index < len && ids[index] != current
                invariant
                    0 <= index <= len,
                    len == ids@.len(),
                    ids@.len() == ts.len(),
                    forall|k: int| 0 <= k < ids@.len() ==> ids@[k] == (#[trigger] ts[k]).id,
                    forall|k: int| 0 <= k < index ==> ts[k].id != current,
                decreases len - index,
            {
                index = index + 1;
            }
            if index == len {
                proof {
                    assert(ts[tabs.active()].id == current);
                }
                return Err(TabsError::TabNotFound(current));
            }
            proof {
                assert(ts[index as int].id == current);
                let c = choose|c: int| 0 <= c < ts.len() && ts[c].id == current && forall|k: int| 0 <= k < c ==> ts[k].id != current;
                if c < index {
                } else if c > index {
                    assert(ts[index as int].id != current);
                }
                assert(tab_index(ts, current) == Some(index as int));
            }
            let target_index = if forward {
                if index + 1 == len { 0 } else { index + 1 }
            } else {
                if index == 0 { len - 1 } else { index - 1 }
            };
            let target = ids[target_index];
            match tabs.activate_tab(target) {
                Ok(()) => Ok(TabCommandResult { opened: None, closed: Vec::new() }),
                Err(e) => Err(e),
            }
        },
        TabCommand::Activate(id) => match tabs.activate_tab(id) {
            Ok(()) => Ok(TabCommandResult { opened: None, closed: Vec::new() }),
            Err(e) => Err(e),
        },
    }
}

/// The work an application command leaves to the program.
#[derive(Debug, Clone, Copy, PartialEq, Eq, Structural)]
pub enum CommandStep {
    /// Put the text of this selection on the clipboard.
    CopySelection(SelectionState),
    /// Read the clipboard, type what it holds into the focused pane, then
    /// save the session.
    Paste,
    /// Apply the layout command; save when it asks to be saved.
    Layout(LayoutCommand),
    /// Apply the tab command, then save.
    Tabs(TabCommand),
    /// Interrupt the process of the focused pane.
    Interrupt,
    /// Save the session.
    Save,
    /// Save the session, and quit once it is saved.
    SaveAndQuit,
    /// Nothing to do.
    Nothing,
}

/// What to do for a command: whether the selection goes first, the work,
/// and the notice shown when that work fails (empty where the work's own
/// error decides it).
#[derive(Debug, Clone, Copy, PartialEq, Eq)]
pub struct CommandPlan {
    pub clear_selection: bool,
    pub step: CommandStep,
    pub failure_notice: &'static str,
}

/// The step a command comes to, `selection` being the selection on screen.
pub open spec fn command_step(command: AppCommand, selection: Option<SelectionState>) -> CommandStep {
    match command {
        AppCommand::Clipboard(ClipboardCommand::CopySelection) => match selection {
            Some(s) => if s.anchor != s.focus {
                CommandStep::CopySelection(s)
            } else {
                CommandStep::Nothing
            },
            None => CommandStep::Nothing,
        },
        AppCommand::Clipboard(ClipboardCommand::PasteFromSystem) => CommandStep::Paste,
        AppCommand::Layout(c) => CommandStep::Layout(c),
        AppCommand::Tabs(c) => CommandStep::Tabs(c),
        AppCommand::SendInterrupt => CommandStep::Interrupt,
        AppCommand::RequestSave => CommandStep::Save,
        AppCommand::Quit => CommandStep::SaveAndQuit,
    }
}

/// Every command but copying, saving and quitting drops the selection.
pub open spec fn command_clears_selection(command: AppCommand) -> bool {
    match command {
        AppCommand::Clipboard(ClipboardCommand::CopySelection) | AppCommand::RequestSave | AppCommand::Quit => false,
        _ => true,
    }
}

/// Plans a command: copying takes a selection that covers at least one
/// cell and does nothing without one; pasting, layout, tab and interrupt
/// commands drop the selection first; a failed layout, tab or interrupt
/// command is reported by a notice of its own.
pub fn plan_command(command: AppCommand, selection: Option<SelectionState>) -> (p: CommandPlan)
    ensures
        p.step == command_step(command, selection),
        p.clear_selection == command_clears_selection(command),
        p.failure_notice@ == (match command {
            AppCommand::Layout(_) => "Failed to update layout"@,
            AppCommand::Tabs(_) => "Failed to update tabs"@,
            AppCommand::SendInterrupt => "Failed to interrupt active process"@,
            _ => ""@,
        }),
{
    match command {
        AppCommand::Clipboard(ClipboardCommand::CopySelection) => {
            let step = match selection {
                Some(s) => if !s.is_empty() {
                    CommandStep::CopySelection(s)
                } else {
                    CommandStep::Nothing
                },
                None => CommandStep::Nothing,
            };
            CommandPlan { clear_selection: false, step, failure_notice: "" }
        },
        AppCommand::Clipboard(ClipboardCommand::PasteFromSystem) => {
            CommandPlan { clear_selection: true, step: CommandStep::Paste, failure_notice: "" }
        },
        AppCommand::Layout(c) => {
            CommandPlan { clear_selection: true, step: CommandStep::Layout(c), failure_notice: "Failed to update layout" }
        },
        AppCommand::Tabs(c) => {
            CommandPlan { clear_selection: true, step: CommandStep::Tabs(c), failure_notice: "Failed to update tabs" }
        },
        AppCommand::SendInterrupt => CommandPlan {
            clear_selection: true,
            step: CommandStep::Interrupt,
            failure_notice: "Failed to interrupt active process",
        },
        AppCommand::RequestSave => CommandPlan { clear_selection: false, step: CommandStep::Save, failure_notice: "" },
        AppCommand::Quit => CommandPlan { clear_selection: false, step: CommandStep::SaveAndQuit, failure_notice: "" },
    }
}


/// What follows an attempt to save the session for `step` (a save, or a
/// save before quitting): whether to quit, and the notice to show, if any.
/// The program quits only once the session is saved; a failed save is
/// reported and keeps it running.
pub fn after_save(step: CommandStep, saved: bool) -> (r: (bool, Option<&'static str>))
    requires
        step is Save || step is SaveAndQuit,
    ensures
        r.0 == (step is SaveAndQuit && saved),
        saved ==> r.1 is None,
        !saved ==> (r.1 matches Some(t) && t@ == "Failed to save state"@),
{
    let quit = match step {
        CommandStep::SaveAndQuit => saved,
        _ => false,
    };
    if saved {
        (quit, None)
    } else {
        (quit, Some("Failed to save state"))
    }
}


/// Switching to the next tab activates the tab after the active one, going
/// round from the last to the first; switching to the previous one, the
/// tab before it, going round from the first to the last. The tabs stay as
/// they were.
pub proof fn law_tab_cycling_goes_round(a: TabManager, b: TabManager, forward: bool, r: Result<(), TabsError>)
    requires
        a.wf(),
        activate_outcome(a, b, cycle_target(a, forward), r),
    ensures
        r is Ok,
        b.tabs() == a.tabs(),
        b.active() == (if forward {
            (a.active() + 1) % (a.tabs().len() as int)
        } else {
            (a.active() + a.tabs().len() - 1) % (a.tabs().len() as int)
        }),
{
    let n = a.tabs().len() as int;
    let i = a.active();
    lemma_tab_index_of_position(a, i);
    let j = if forward { next_index(i, n) } else { previous_index(i, n) };
    lemma_tab_index_of_position(a, j);
    assert(cycle_target(a, forward) == a.tabs()[j].id);
    if forward {
        if i + 1 < n {
            assert((i + 1) % n == i + 1) by (nonlinear_arith)
                requires
                    0 <= i + 1 < n,
            ;
        } else {
            assert((i + 1) % n == 0) by (nonlinear_arith)
                requires
                    i + 1 == n,
                    n >= 1,
            ;
        }
    } else {
        if i > 0 {
            assert((i + n - 1) % n == i - 1) by (nonlinear_arith)
                requires
                    0 < i < n,
            ;
        } else {
            assert((i + n - 1) % n == n - 1) by (nonlinear_arith)
                requires
                    i == 0,
                    n >= 1,
            ;
        }
    }
}

} // verus!
