//! The program's key and mouse handling, driven through the library's
//! decisions with the shells replaced by a record of what they were sent.

use mtrm::base::{AppCommand, PaneId, SplitDirection, TabCommand, TabId};
use mtrm::clipboard::{ClipboardBackend, MemoryClipboard};
use mtrm::commands::{handle_layout_command, handle_tab_command, plan_command, CommandStep};
use mtrm::help::{help_body_rows, help_key, help_overlay_lines, keybindings_section_row, max_help_scroll_col, max_help_scroll_row, opened_help_overlay, HelpKeyOutcome};
use mtrm::input::{route_key, InputAction, KeyRoute};
use mtrm::keymap::Keymap;
use mtrm::keys::{resolve_alt_prefixed_key_event, KeyCode, KeyEvent, KeyModifiers, NavigationAction, ALT_BITS, CONTROL_BITS, SHIFT_BITS};
use mtrm::layout::Rect;
use mtrm::platform_keys::PlatformKeyProfile;
use mtrm::rename::{open_rename_pane_state, open_rename_tab_state, rename_key, RenameState, RenameStep, RenameTarget};
use mtrm::selection::{pane_content_rect, pointer_press, tab_id_at_position, PointerPress, SelectionState};
use mtrm::tabs::TabManager;

const CONTENT: Rect = Rect { x: 0, y: 0, width: 80, height: 23 };

fn key_event(code: KeyCode, bits: u8) -> KeyEvent {
    KeyEvent { code, modifiers: KeyModifiers { bits } }
}

/// The program's state, with the shells replaced by what they were sent.
struct Flow {
    tabs: TabManager,
    keymap: Keymap,
    rename: Option<RenameState>,
    selection: Option<SelectionState>,
    pending_esc: bool,
    sent: Vec<u8>,
    interrupts: usize,
    saves: usize,
    notice: Option<String>,
}

impl Flow {
    fn new() -> Flow {
        Flow {
            tabs: TabManager::new("/tmp".to_string()),
            keymap: Keymap::default(),
            rename: None,
            selection: None,
            pending_esc: false,
            sent: Vec::new(),
            interrupts: 0,
            saves: 0,
            notice: None,
        }
    }

    fn key(&mut self, event: KeyEvent, clipboard: &mut dyn ClipboardBackend) {
        if let Some(state) = self.rename.clone() {
            match rename_key(state, event) {
                RenameStep::Cancel => self.rename = None,
                RenameStep::Commit { target, title } => {
                    match target {
                        RenameTarget::Tab(id) => self.tabs.rename_tab(id, title).unwrap(),
                        RenameTarget::Pane(id) => self.tabs.rename_pane(id, title).unwrap(),
                    }
                    self.rename = None;
                    self.saves += 1;
                },
                RenameStep::Edit { state, .. } => self.rename = Some(state),
            }
            return;
        }
        let step = resolve_alt_prefixed_key_event(self.pending_esc, true, event);
        if step.flush_escape {
            self.sent.push(0x1b);
        }
        self.pending_esc = step.pending;
        let Some(event) = step.event else {
            return;
        };
        let scrolled_back = self.tabs.active_pane_is_scrolled_back().unwrap();
        match route_key(event, &self.keymap, PlatformKeyProfile::Linux, scrolled_back) {
            KeyRoute::StartRenameTab => self.rename = Some(open_rename_tab_state(&self.tabs)),
            KeyRoute::StartRenamePane => self.rename = Some(open_rename_pane_state(&self.tabs)),
            KeyRoute::Navigation(NavigationAction::ScrollToBottom) => self.tabs.scroll_active_pane_to_bottom().unwrap(),
            KeyRoute::Navigation(NavigationAction::Write(bytes)) => self.sent.extend(bytes),
            KeyRoute::Input(InputAction::Ignore) => {},
            KeyRoute::Input(InputAction::PtyBytes(bytes)) => {
                self.selection = None;
                self.sent.extend(bytes);
            },
            KeyRoute::Input(InputAction::Command(command)) => self.command(command, clipboard),
        }
    }

    fn command(&mut self, command: AppCommand, clipboard: &mut dyn ClipboardBackend) {
        let plan = plan_command(command, self.selection);
        if plan.clear_selection {
            self.selection = None;
        }
        match plan.step {
            CommandStep::Nothing => {},
            CommandStep::CopySelection(s) => {
                let text = self
                    .tabs
                    .pane_selection_text(s.pane_id, (s.anchor.row, s.anchor.col), (s.focus.row, s.focus.col))
                    .unwrap();
                clipboard.set_text(&text).unwrap();
            },
            CommandStep::Paste => self.sent.extend(clipboard.get_text().unwrap().into_bytes()),
            CommandStep::Layout(c) => match handle_layout_command(&mut self.tabs, c, CONTENT, "/tmp".to_string()) {
                Ok(result) => {
                    if result.persist {
                        self.saves += 1;
                    }
                },
                Err(_) => self.notice = Some(plan.failure_notice.to_string()),
            },
            CommandStep::Tabs(c) => match handle_tab_command(&mut self.tabs, c, "/tmp".to_string()) {
                Ok(_) => self.saves += 1,
                Err(_) => self.notice = Some(plan.failure_notice.to_string()),
            },
            CommandStep::Interrupt => self.interrupts += 1,
            CommandStep::Save | CommandStep::SaveAndQuit => self.saves += 1,
        }
    }

    fn press(&mut self, column: u16, row: u16) {
        let placements = self.tabs.placements(CONTENT).unwrap();
        match pointer_press(&self.tabs.tab_summaries(), CONTENT.width, &placements, column, row) {
            PointerPress::ActivateTab(id) => {
                self.selection = None;
                self.tabs.activate_tab(id).unwrap();
            },
            PointerPress::Select(target) => {
                self.tabs.focus_pane(target.pane_id).unwrap();
                self.selection = Some(SelectionState { pane_id: target.pane_id, anchor: target.point, focus: target.point });
            },
            PointerPress::Clear => self.selection = None,
        }
    }
}

#[test]
fn alt_shift_r_opens_rename_tab_modal() {
    let mut flow = Flow::new();
    let mut clipboard = MemoryClipboard::new();
    flow.key(key_event(KeyCode::Char('R'), ALT_BITS | SHIFT_BITS), &mut clipboard);
    assert_eq!(
        flow.rename,
        Some(RenameState { target: RenameTarget::Tab(TabId::new(0)), input: "Tab 1".to_owned(), cursor: 5 })
    );
}

#[test]
fn alt_shift_russian_ka_opens_rename_tab_modal() {
    let mut flow = Flow::new();
    let mut clipboard = MemoryClipboard::new();
    flow.key(key_event(KeyCode::Char('К'), ALT_BITS | SHIFT_BITS), &mut clipboard);
    assert!(flow.rename.is_some());
}

#[test]
fn rename_tab_modal_consumes_text_input_without_sending_to_pty() {
    let mut flow = Flow::new();
    let mut clipboard = MemoryClipboard::new();
    flow.rename = Some(open_rename_tab_state(&flow.tabs));
    flow.key(key_event(KeyCode::Char('x'), 0), &mut clipboard);
    assert_eq!(flow.rename.as_ref().unwrap().input, "Tab 1x");
    assert!(flow.sent.is_empty(), "rename modal input must not reach the PTY");
}

#[test]
fn rename_tab_modal_applies_title_and_persists_it() {
    let mut flow = Flow::new();
    let mut clipboard = MemoryClipboard::new();
    flow.key(key_event(KeyCode::Char('R'), ALT_BITS | SHIFT_BITS), &mut clipboard);
    for _ in 0..5 {
        flow.key(key_event(KeyCode::Backspace, 0), &mut clipboard);
    }
    for ch in "build".chars() {
        flow.key(key_event(KeyCode::Char(ch), 0), &mut clipboard);
    }
    flow.key(key_event(KeyCode::Enter, 0), &mut clipboard);

    assert_eq!(flow.tabs.active_tab_title(), "build");
    assert!(flow.rename.is_none());
    assert_eq!(flow.saves, 1);
    let restored = TabManager::from_snapshot(flow.tabs.snapshot().unwrap()).unwrap();
    assert_eq!(restored.active_tab_title(), "build");
}

#[test]
fn alt_shift_e_opens_rename_pane_modal() {
    let mut flow = Flow::new();
    let mut clipboard = MemoryClipboard::new();
    flow.key(key_event(KeyCode::Char('E'), ALT_BITS | SHIFT_BITS), &mut clipboard);
    assert_eq!(
        flow.rename,
        Some(RenameState { target: RenameTarget::Pane(PaneId::new(0)), input: "pane-0".to_owned(), cursor: 6 })
    );
}

#[test]
fn alt_shift_russian_u_opens_rename_pane_modal() {
    let mut flow = Flow::new();
    let mut clipboard = MemoryClipboard::new();
    flow.key(key_event(KeyCode::Char('У'), ALT_BITS | SHIFT_BITS), &mut clipboard);
    assert!(matches!(flow.rename, Some(RenameState { target: RenameTarget::Pane(_), .. })));
}

#[test]
fn rename_pane_modal_applies_title_and_persists_it() {
    let mut flow = Flow::new();
    let mut clipboard = MemoryClipboard::new();
    flow.key(key_event(KeyCode::Char('E'), ALT_BITS | SHIFT_BITS), &mut clipboard);
    for _ in 0..6 {
        flow.key(key_event(KeyCode::Backspace, 0), &mut clipboard);
    }
    for ch in ['e', 'd', 'i', 't', 'o', 'r'] {
        flow.key(key_event(KeyCode::Char(ch), 0), &mut clipboard);
    }
    flow.key(key_event(KeyCode::Enter, 0), &mut clipboard);

    assert_eq!(flow.tabs.active_pane_title().unwrap(), "editor");
    let restored = TabManager::from_snapshot(flow.tabs.snapshot().unwrap()).unwrap();
    assert_eq!(restored.active_pane_title().unwrap(), "editor");
}

#[test]
fn rename_pane_modal_esc_cancels_changes() {
    let mut flow = Flow::new();
    let mut clipboard = MemoryClipboard::new();
    flow.rename = Some(open_rename_pane_state(&flow.tabs));
    flow.key(key_event(KeyCode::Char('x'), 0), &mut clipboard);
    flow.key(key_event(KeyCode::Esc, 0), &mut clipboard);
    assert!(flow.rename.is_none());
    assert_eq!(flow.tabs.active_pane_title().unwrap(), "pane-0");
}

#[test]
fn ctrl_c_without_selection_does_not_copy_whole_pane() {
    let mut flow = Flow::new();
    let mut clipboard = MemoryClipboard::new();
    flow.tabs.inject_bytes_into_active_pane_screen(b"copy me?\r\n").unwrap();
    flow.key(key_event(KeyCode::Char('c'), CONTROL_BITS), &mut clipboard);
    assert_eq!(clipboard.get_text().unwrap(), "");
}

#[test]
fn ctrl_c_copies_the_selected_cells() {
    let mut flow = Flow::new();
    let mut clipboard = MemoryClipboard::new();
    flow.tabs.resize_active_tab(CONTENT).unwrap();
    flow.tabs.inject_bytes_into_active_pane_screen(b"left right\r\n").unwrap();
    let area = flow.tabs.placements(CONTENT).unwrap()[0].1;
    let content = pane_content_rect(area).unwrap();
    flow.press(content.x + 5, content.y);
    if let Some(selection) = &mut flow.selection {
        selection.focus.col = 9;
    }
    flow.key(key_event(KeyCode::Char('c'), CONTROL_BITS), &mut clipboard);
    assert_eq!(clipboard.get_text().unwrap(), "right");
}

#[test]
fn handle_key_event_alt_t_creates_new_tab() {
    let mut flow = Flow::new();
    let mut clipboard = MemoryClipboard::new();
    flow.key(key_event(KeyCode::Char('t'), ALT_BITS), &mut clipboard);
    assert_eq!(flow.tabs.tab_ids().len(), 2);
}

#[test]
fn handle_key_event_alt_minus_splits_active_pane() {
    let mut flow = Flow::new();
    let mut clipboard = MemoryClipboard::new();
    flow.key(key_event(KeyCode::Char('-'), ALT_BITS), &mut clipboard);
    let placements = flow.tabs.placements(Rect { x: 0, y: 0, width: 100, height: 30 }).unwrap();
    assert_eq!(placements.len(), 2);
}

#[test]
fn handle_key_event_regular_char_sends_bytes() {
    let mut flow = Flow::new();
    let mut clipboard = MemoryClipboard::new();
    for code in [KeyCode::Char('p'), KeyCode::Char('w'), KeyCode::Char('d'), KeyCode::Enter] {
        flow.key(key_event(code, 0), &mut clipboard);
    }
    assert_eq!(flow.sent, b"pwd\r".to_vec());
}

#[test]
fn regular_input_does_not_persist_state_immediately() {
    let mut flow = Flow::new();
    let mut clipboard = MemoryClipboard::new();
    flow.key(key_event(KeyCode::Char('x'), 0), &mut clipboard);
    assert_eq!(flow.saves, 0, "plain PTY input must not trigger state save");
}

#[test]
fn closing_last_tab_sets_notice_and_does_not_fail() {
    let mut flow = Flow::new();
    let mut clipboard = MemoryClipboard::new();
    flow.command(AppCommand::Tabs(TabCommand::CloseCurrentTab), &mut clipboard);
    assert_eq!(flow.notice.as_deref(), Some("Failed to update tabs"));
}

#[test]
fn handle_key_event_alt_x_sends_interrupt() {
    let mut flow = Flow::new();
    let mut clipboard = MemoryClipboard::new();
    flow.key(key_event(KeyCode::Char('x'), ALT_BITS), &mut clipboard);
    assert_eq!(flow.interrupts, 1);
    assert!(flow.sent.is_empty());
}

#[test]
fn handle_key_event_esc_prefix_russian_interrupt_sends_interrupt() {
    let mut flow = Flow::new();
    let mut clipboard = MemoryClipboard::new();
    flow.key(key_event(KeyCode::Esc, 0), &mut clipboard);
    flow.key(key_event(KeyCode::Char('ч'), 0), &mut clipboard);
    assert_eq!(flow.interrupts, 1);
    assert!(flow.sent.is_empty());
}

#[test]
fn mouse_click_on_tab_bar_switches_active_tab() {
    let mut flow = Flow::new();
    let mut clipboard = MemoryClipboard::new();
    let first = flow.tabs.active_tab_id();
    flow.command(AppCommand::Tabs(TabCommand::NewTab), &mut clipboard);
    let second = flow.tabs.active_tab_id();
    assert_ne!(first, second);

    flow.press(0, 0);
    assert_eq!(flow.tabs.active_tab_id(), first);

    let summaries = flow.tabs.tab_summaries();
    let second_x = (0..CONTENT.width)
        .find(|column| tab_id_at_position(&summaries, CONTENT.width, *column, 0) == Some(second))
        .expect("expected to find clickable column for second tab");
    flow.press(second_x, 0);
    assert_eq!(flow.tabs.active_tab_id(), second);
}

#[test]
fn mouse_click_switches_focus_to_clicked_pane() {
    let mut flow = Flow::new();
    handle_layout_command(
        &mut flow.tabs,
        mtrm::base::LayoutCommand::SplitFocused(SplitDirection::Vertical),
        CONTENT,
        "/tmp".to_string(),
    )
    .unwrap();
    let right_pane = flow.tabs.active_pane_id();
    handle_layout_command(
        &mut flow.tabs,
        mtrm::base::LayoutCommand::MoveFocus(mtrm::base::FocusMoveDirection::Left),
        CONTENT,
        "/tmp".to_string(),
    )
    .unwrap();
    assert_ne!(flow.tabs.active_pane_id(), right_pane);

    let right_area = flow
        .tabs
        .placements(CONTENT)
        .unwrap()
        .into_iter()
        .find(|(pane_id, _, _)| *pane_id == right_pane)
        .map(|(_, area, _)| area)
        .unwrap();
    let right_content = pane_content_rect(right_area).unwrap();
    flow.press(right_content.x, right_content.y);
    assert_eq!(flow.tabs.active_pane_id(), right_pane);
}

fn twenty_lines(flow: &mut Flow) {
    flow.tabs.resize_active_tab(Rect { x: 0, y: 0, width: 20, height: 6 }).unwrap();
    let mut bytes = Vec::new();
    for i in 1..=20 {
        bytes.extend_from_slice(format!("line{i}\r\n").as_bytes());
    }
    flow.tabs.inject_bytes_into_active_pane_screen(&bytes).unwrap();
    assert!(flow.tabs.active_pane_text().unwrap().contains("line20"));
}

#[test]
fn shift_up_scrolls_without_persisting_state() {
    let mut flow = Flow::new();
    let mut clipboard = MemoryClipboard::new();
    twenty_lines(&mut flow);
    let before = flow.tabs.active_pane_text().unwrap();
    flow.key(key_event(KeyCode::Up, SHIFT_BITS), &mut clipboard);
    let after = flow.tabs.active_pane_text().unwrap();
    assert_ne!(before, after);
    assert_eq!(flow.saves, 0);
}

#[test]
fn end_returns_scrolled_view_to_bottom() {
    let mut flow = Flow::new();
    let mut clipboard = MemoryClipboard::new();
    twenty_lines(&mut flow);
    flow.key(key_event(KeyCode::PageUp, SHIFT_BITS), &mut clipboard);
    assert!(!flow.tabs.active_pane_text().unwrap().contains("line20"));
    flow.key(key_event(KeyCode::End, 0), &mut clipboard);
    assert!(flow.tabs.active_pane_text().unwrap().contains("line20"));
    assert!(flow.sent.is_empty());
}

#[test]
fn shift_up_scrolls_fullscreen_history_through_app_commands() {
    let mut flow = Flow::new();
    let mut clipboard = MemoryClipboard::new();
    flow.tabs.inject_bytes_into_active_pane_screen(b"\x1b[?1049h").unwrap();
    flow.tabs.inject_bytes_into_active_pane_screen(b"\x1b[2J\x1b[Hframe1").unwrap();
    flow.tabs.inject_bytes_into_active_pane_screen(b"\x1b[2J\x1b[Hframe2").unwrap();
    flow.tabs.inject_bytes_into_active_pane_screen(b"\x1b[2J\x1b[Hframe3").unwrap();
    assert!(flow.tabs.active_pane_text().unwrap().contains("frame3"));

    flow.key(key_event(KeyCode::Up, SHIFT_BITS), &mut clipboard);
    assert!(flow.tabs.active_pane_text().unwrap().contains("frame2"));

    flow.key(key_event(KeyCode::End, 0), &mut clipboard);
    assert!(flow.tabs.active_pane_text().unwrap().contains("frame3"));
}

#[test]
fn help_overlay_mouse_wheel_scrolls_text() {
    let lines = help_overlay_lines(PlatformKeyProfile::Linux);
    let page = help_body_rows(CONTENT.height);
    let max_row = max_help_scroll_row(lines.len(), page);
    let max_col = max_help_scroll_col(&lines);
    let initial = opened_help_overlay(keybindings_section_row(&lines), max_row);
    match help_key(initial, key_event(KeyCode::Down, 0), page, max_row, max_col) {
        HelpKeyOutcome::Scroll(updated) => assert_eq!(updated.scroll_row, initial.scroll_row + 1),
        other => panic!("expected a scroll, got {other:?}"),
    }
}
