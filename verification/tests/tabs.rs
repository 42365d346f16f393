use mtrm::base::{FocusMoveDirection, PaneId, ResizeDirection, SplitDirection, TabCommand, LayoutCommand};
use mtrm::commands::{handle_layout_command, handle_tab_command};
use mtrm::errors::TabsError;
use mtrm::escape::ScreenMode;
use mtrm::layout::{LayoutTree, Rect};
use mtrm::session::{PaneSnapshot, SessionSnapshot, TabSnapshot};
use mtrm::base::TabId;
use mtrm::tabs::{is_restorable, TabManager};

fn manager() -> TabManager {
    TabManager::new("/tmp/work".to_string())
}

fn area(width: u16, height: u16) -> Rect {
    Rect { x: 0, y: 0, width, height }
}

fn find_visible_text_position(manager: &TabManager, pane_id: PaneId, needle: &str) -> (u16, u16) {
    let text = manager.pane_text(pane_id).unwrap();
    for (row, line) in text.split('\n').enumerate() {
        if let Some(byte_col) = line.find(needle) {
            return (row as u16, line[..byte_col].chars().count() as u16);
        }
    }
    panic!("could not find {needle:?} in pane text: {text:?}");
}

fn shell_lines(count: usize) -> Vec<u8> {
    let mut bytes = Vec::new();
    for i in 1..=count {
        bytes.extend_from_slice(format!("line{i}\r\n").as_bytes());
    }
    bytes
}

#[test]
fn new_creates_single_tab_with_single_pane() {
    let manager = manager();
    assert_eq!(manager.tab_ids().len(), 1);
    assert_eq!(manager.active_tab_id(), TabId::new(0));
    assert_eq!(manager.active_pane_id(), PaneId::new(0));
    assert_eq!(manager.active_tab_title(), "Tab 1");
}

#[test]
fn new_tab_adds_tab_and_activates_it() {
    let mut manager = manager();
    let tab_id = manager.new_tab("/tmp/work".to_string());
    assert_eq!(manager.tab_ids(), vec![TabId::new(0), tab_id]);
    assert_eq!(manager.active_tab_id(), tab_id);
    assert_eq!(manager.active_tab_title(), "Tab 2");
}

#[test]
fn activate_tab_switches_active_tab() {
    let mut manager = manager();
    let tab_id = manager.new_tab("/tmp/work".to_string());
    manager.activate_tab(TabId::new(0)).unwrap();
    assert_eq!(manager.active_tab_id(), TabId::new(0));
    manager.activate_tab(tab_id).unwrap();
    assert_eq!(manager.active_tab_id(), tab_id);
    assert_eq!(manager.activate_tab(TabId::new(9)), Err(TabsError::TabNotFound(TabId::new(9))));
}

#[test]
fn split_active_pane_adds_new_pane() {
    let mut manager = manager();
    let pane_id = manager.split_active_pane(SplitDirection::Vertical, "/tmp/work".to_string()).unwrap();
    let placements = manager.placements(area(100, 30)).unwrap();
    assert_eq!(pane_id, PaneId::new(1));
    assert_eq!(placements.len(), 2);
    assert!(manager.pane_text(pane_id).unwrap().trim().is_empty());
}

#[test]
fn resize_active_pane_changes_layout_by_one_cell() {
    let mut manager = manager();
    manager.split_active_pane(SplitDirection::Vertical, "/tmp/work".to_string()).unwrap();
    manager.focus_pane(PaneId::new(0)).unwrap();
    let area = area(40, 12);
    let before = manager.placements(area).unwrap();
    let changed = manager.resize_active_pane(ResizeDirection::Right, area).unwrap();
    let after = manager.placements(area).unwrap();
    assert!(changed);
    assert_eq!(after[0].1.width, before[0].1.width + 1);
    assert_eq!(after[1].1.width + 1, before[1].1.width);
    assert_eq!(manager.active_pane_id(), PaneId::new(0));
}

#[test]
fn close_active_pane_removes_it_and_keeps_tab_alive() {
    let mut manager = manager();
    manager.split_active_pane(SplitDirection::Vertical, "/tmp/work".to_string()).unwrap();
    let closed = manager.close_active_pane().unwrap();
    assert_eq!(closed, PaneId::new(1));
    assert_eq!(manager.active_pane_id(), PaneId::new(0));
    assert_eq!(manager.placements(area(100, 30)).unwrap().len(), 1);
    assert!(matches!(manager.pane_text(closed), Err(TabsError::PaneNotFound(_))));
}

#[test]
fn snapshot_reflects_current_state() {
    let mut manager = manager();
    manager.set_last_known_cwd(manager.active_pane_id(), "/tmp/work/next".to_string()).unwrap();
    let snapshot = manager.snapshot().unwrap();
    assert_eq!(snapshot.active_tab, TabId::new(0));
    assert_eq!(snapshot.tabs.len(), 1);
    assert_eq!(snapshot.tabs[0].panes[0].cwd, "/tmp/work/next");
    assert_eq!(snapshot.tabs[0].panes[0].title, "pane-0");
}

fn two_tab_snapshot() -> SessionSnapshot {
    SessionSnapshot {
        tabs: vec![
            TabSnapshot {
                id: TabId::new(5),
                title: "first".to_owned(),
                layout: LayoutTree::new(PaneId::new(10)).to_snapshot(),
                panes: vec![PaneSnapshot { id: PaneId::new(10), cwd: "/tmp/a".to_owned(), title: "left".to_owned() }],
                active_pane: PaneId::new(10),
            },
            TabSnapshot {
                id: TabId::new(6),
                title: "second".to_owned(),
                layout: {
                    let mut layout = LayoutTree::new(PaneId::new(20));
                    layout.split_focused(SplitDirection::Vertical, PaneId::new(21));
                    layout.focus_pane(PaneId::new(21)).unwrap();
                    layout.to_snapshot()
                },
                panes: vec![
                    PaneSnapshot { id: PaneId::new(20), cwd: "/tmp/a".to_owned(), title: "".to_owned() },
                    PaneSnapshot { id: PaneId::new(21), cwd: "/tmp/b".to_owned(), title: "right".to_owned() },
                ],
                active_pane: PaneId::new(21),
            },
        ],
        active_tab: TabId::new(6),
    }
}

#[test]
fn from_snapshot_restores_tabs_and_panes() {
    let snapshot = two_tab_snapshot();
    assert!(is_restorable(&snapshot));
    let manager = TabManager::from_snapshot(snapshot).unwrap();
    assert_eq!(manager.tab_ids(), vec![TabId::new(5), TabId::new(6)]);
    assert_eq!(manager.active_tab_id(), TabId::new(6));
    assert_eq!(manager.active_pane_id(), PaneId::new(21));
    assert_eq!(manager.pane_title(PaneId::new(10)).unwrap(), "left");
    assert_eq!(manager.pane_title(PaneId::new(20)).unwrap(), "pane-20");
    assert_eq!(manager.pane_title(PaneId::new(21)).unwrap(), "right");
}

#[test]
fn from_snapshot_hands_out_identifiers_after_the_saved_ones() {
    let mut manager = TabManager::from_snapshot(two_tab_snapshot()).unwrap();
    let tab = manager.new_tab("/tmp".to_string());
    assert_eq!(tab, TabId::new(7));
    assert_eq!(manager.active_pane_id(), PaneId::new(22));
}

#[test]
fn from_snapshot_refuses_invalid_session() {
    let mut snapshot = two_tab_snapshot();
    snapshot.active_tab = TabId::new(99);
    match TabManager::from_snapshot(snapshot) {
        Err(TabsError::Process(message)) => assert_eq!(message, "invalid snapshot: MissingActiveTab(TabId(99))"),
        other => panic!("unexpected result: {:?}", other.map(|m| m.tab_ids())),
    }
}

#[test]
fn saved_session_restores_to_the_same_tabs() {
    let mut manager = manager();
    manager.split_active_pane(SplitDirection::Horizontal, "/tmp/other".to_string()).unwrap();
    manager.rename_pane(PaneId::new(1), "logs".to_string()).unwrap();
    manager.new_tab("/tmp/third".to_string());
    manager.rename_tab(TabId::new(1), "build".to_string()).unwrap();
    manager.activate_tab(TabId::new(0)).unwrap();
    let saved = manager.snapshot().unwrap();
    let restored = TabManager::from_snapshot(saved).unwrap();
    let again = restored.snapshot().unwrap();
    let first = manager.snapshot().unwrap();
    assert_eq!(again.active_tab, first.active_tab);
    assert_eq!(again.tabs.len(), first.tabs.len());
    for (a, b) in again.tabs.iter().zip(first.tabs.iter()) {
        assert_eq!(a.id, b.id);
        assert_eq!(a.title, b.title);
        assert_eq!(a.panes, b.panes);
        assert_eq!(a.active_pane, b.active_pane);
        assert_eq!(a.layout.focused_pane, b.layout.focused_pane);
    }
    assert_eq!(restored.placements(area(80, 24)).unwrap(), manager.placements(area(80, 24)).unwrap());
}

#[test]
fn rename_tab_updates_runtime_title_and_snapshot() {
    let mut manager = manager();
    manager.rename_tab(TabId::new(0), "renamed".to_owned()).unwrap();
    assert_eq!(manager.active_tab_title(), "renamed");
    let snapshot = manager.snapshot().unwrap();
    assert_eq!(snapshot.tabs[0].title, "renamed");
}

#[test]
fn active_pane_title_comes_from_runtime_data() {
    let manager = manager();
    assert_eq!(manager.active_pane_title().unwrap(), "pane-0");
}

#[test]
fn rename_pane_updates_runtime_title_and_snapshot() {
    let mut manager = manager();
    manager.rename_pane(PaneId::new(0), "editor".to_owned()).unwrap();
    assert_eq!(manager.active_pane_title().unwrap(), "editor");
    let snapshot = manager.snapshot().unwrap();
    assert_eq!(snapshot.tabs[0].panes[0].title, "editor");
}

#[test]
fn refresh_all_panes_preserves_output_of_inactive_pane() {
    let mut manager = manager();
    manager.split_active_pane(SplitDirection::Vertical, "/tmp/work".to_string()).unwrap();
    let right_pane = manager.active_pane_id();
    manager.move_focus(FocusMoveDirection::Left).unwrap();
    let changed = manager.refresh_all_panes(&vec![(right_pane, b"__INACTIVE_SCREEN__\r\n".to_vec())]).unwrap();
    assert!(changed);
    assert!(manager.pane_text(right_pane).unwrap().contains("__INACTIVE_SCREEN__"));
    assert_eq!(manager.active_pane_id(), PaneId::new(0));
}

#[test]
fn refresh_all_panes_reports_no_change_without_output() {
    let mut manager = manager();
    assert!(!manager.refresh_all_panes(&vec![(PaneId::new(0), Vec::new())]).unwrap());
    assert_eq!(
        manager.refresh_all_panes(&vec![(PaneId::new(42), b"x".to_vec())]),
        Err(TabsError::PaneNotFound(PaneId::new(42)))
    );
}

#[test]
fn scrolling_active_pane_changes_visible_text() {
    let mut manager = manager();
    let resized = manager.resize_active_tab(area(20, 6)).unwrap();
    assert_eq!(resized, vec![(PaneId::new(0), 18, 4)]);
    manager.refresh_all_panes(&vec![(PaneId::new(0), shell_lines(20))]).unwrap();
    let before = manager.active_pane_text().unwrap();
    assert!(before.contains("line20"));
    assert!(manager.scroll_active_pane_up_lines(2).is_ok());
    let after = manager.active_pane_text().unwrap();
    assert_ne!(before, after);
}

#[test]
fn input_returns_scrolled_pane_to_bottom() {
    let mut manager = manager();
    manager.resize_active_tab(area(20, 6)).unwrap();
    manager.refresh_all_panes(&vec![(PaneId::new(0), shell_lines(20))]).unwrap();
    manager.scroll_active_pane_up_lines(3).unwrap();
    assert!(manager.active_pane_text().unwrap().contains("line17"));
    manager.scroll_active_pane_to_bottom().unwrap();
    manager.refresh_all_panes(&vec![(PaneId::new(0), b"__BOTTOM__\r\n".to_vec())]).unwrap();
    assert!(manager.active_pane_text().unwrap().contains("__BOTTOM__"));
}

#[test]
fn active_pane_screen_tracks_alternate_mode_for_fullscreen_sequences() {
    let mut manager = manager();
    let pane_id = manager.active_pane_id();
    manager.inject_bytes_into_active_pane_screen(b"shell$ prompt").unwrap();
    manager.inject_bytes_into_active_pane_screen(b"\x1b[?1049h\x1b[2J\x1b[Hcodex frame").unwrap();
    assert_eq!(manager.pane_screen_mode(pane_id).unwrap(), ScreenMode::Alternate);
    assert!(manager.pane_text(pane_id).unwrap().split('\n').next().unwrap().contains("codex frame"));
    manager.inject_bytes_into_active_pane_screen(b"\x1b[?1049l").unwrap();
    assert_eq!(manager.pane_screen_mode(pane_id).unwrap(), ScreenMode::Normal);
    assert!(manager.pane_text(pane_id).unwrap().split('\n').next().unwrap().contains("shell$ prompt"));
}

#[test]
fn scrolling_fullscreen_pane_uses_alternate_snapshot_history() {
    let mut manager = manager();
    manager.inject_bytes_into_active_pane_screen(b"\x1b[?1049h").unwrap();
    manager.inject_bytes_into_active_pane_screen(b"\x1b[2J\x1b[Hframe1").unwrap();
    manager.inject_bytes_into_active_pane_screen(b"\x1b[2J\x1b[Hframe2").unwrap();
    manager.inject_bytes_into_active_pane_screen(b"\x1b[2J\x1b[Hframe3").unwrap();
    assert!(manager.active_pane_text().unwrap().contains("frame3"));
    manager.scroll_active_pane_up_lines(1).unwrap();
    assert!(manager.active_pane_text().unwrap().contains("frame2"));
    manager.scroll_active_pane_to_bottom().unwrap();
    assert!(manager.active_pane_text().unwrap().contains("frame3"));
}

#[test]
fn active_pane_scrollback_state_tracks_alternate_history_snapshot() {
    let mut manager = manager();
    manager.inject_bytes_into_active_pane_screen(b"\x1b[?1049h").unwrap();
    manager.inject_bytes_into_active_pane_screen(b"\x1b[2J\x1b[Hframe1").unwrap();
    manager.inject_bytes_into_active_pane_screen(b"\x1b[2J\x1b[Hframe2").unwrap();
    assert!(!manager.active_pane_is_scrolled_back().unwrap());
    manager.scroll_active_pane_up_lines(1).unwrap();
    assert!(manager.active_pane_is_scrolled_back().unwrap());
    assert!(manager.active_pane_text().unwrap().contains("frame1"));
}

#[test]
fn pane_cursor_is_hidden_when_alternate_history_snapshot_is_visible() {
    let mut manager = manager();
    let pane_id = manager.active_pane_id();
    manager.inject_bytes_into_active_pane_screen(b"\x1b[?1049h").unwrap();
    manager.inject_bytes_into_active_pane_screen(b"\x1b[2J\x1b[Hframe1").unwrap();
    manager.inject_bytes_into_active_pane_screen(b"\x1b[2J\x1b[Hframe2").unwrap();
    assert!(manager.pane_cursor(pane_id).unwrap().is_some());
    manager.scroll_active_pane_up_lines(1).unwrap();
    assert!(manager.active_pane_text().unwrap().contains("frame1"));
    assert_eq!(manager.pane_cursor(pane_id).unwrap(), None);
}

#[test]
fn scrolling_normal_screen_decstbm_history_shows_previous_frame_instead_of_mixed_rows() {
    let mut manager = manager();
    let frame = |frame_label: &str, footer_label: &str| {
        let mut bytes = Vec::new();
        bytes.extend_from_slice(b"\x1b[2J\x1b[H");
        bytes.extend_from_slice(b"hist1\r\nhist2\r\nhist3\r\nhist4\r\n");
        bytes.extend_from_slice(footer_label.as_bytes());
        bytes.extend_from_slice(b"\x1b[1;4r");
        bytes.extend_from_slice(b"\x1b[4;1H\r\n");
        bytes.extend_from_slice(frame_label.as_bytes());
        bytes.extend_from_slice(b"\x1b[r");
        bytes.extend_from_slice(b"\x1b[6;1H");
        bytes.extend_from_slice(footer_label.as_bytes());
        bytes
    };
    manager.inject_bytes_into_active_pane_screen(&frame("frame1", "footer1")).unwrap();
    manager.inject_bytes_into_active_pane_screen(&frame("frame2", "footer2")).unwrap();
    manager.inject_bytes_into_active_pane_screen(&frame("frame3", "footer3")).unwrap();
    let live = manager.active_pane_text().unwrap();
    assert!(live.contains("frame3"));
    assert!(live.contains("footer3"));
    manager.scroll_active_pane_up_lines(1).unwrap();
    let previous = manager.active_pane_text().unwrap();
    assert!(previous.contains("frame2"), "previous text:\n{previous}");
    assert!(previous.contains("footer2"), "previous text:\n{previous}");
    assert!(!previous.contains("footer3"), "previous text:\n{previous}");
}

#[test]
fn pane_selection_text_extracts_single_line_range() {
    let mut manager = manager();
    manager.refresh_all_panes(&vec![(PaneId::new(0), b"hello world".to_vec())]).unwrap();
    let (row, col) = find_visible_text_position(&manager, manager.active_pane_id(), "hello");
    let selected = manager.pane_selection_text(manager.active_pane_id(), (row, col), (row, col + 4)).unwrap();
    assert_eq!(selected, "hello");
}

#[test]
fn pane_selection_text_preserves_internal_spaces_and_wide_chars() {
    let mut manager = manager();
    manager.refresh_all_panes(&vec![(PaneId::new(0), "界 a".as_bytes().to_vec())]).unwrap();
    let (row, col) = find_visible_text_position(&manager, manager.active_pane_id(), "界 a");
    let selected = manager.pane_selection_text(manager.active_pane_id(), (row, col), (row, col + 3)).unwrap();
    assert_eq!(selected, "界 a");
}

#[test]
fn close_active_tab_keeps_the_last_tab() {
    let mut manager = manager();
    assert_eq!(manager.close_active_tab(), Err(TabsError::CannotCloseLastTab));
    let second = manager.new_tab("/tmp".to_string());
    assert_eq!(manager.close_active_tab(), Ok(second));
    assert_eq!(manager.tab_ids(), vec![TabId::new(0)]);
}

#[test]
fn tab_commands_cycle_through_tabs() {
    let mut manager = manager();
    let opened = handle_tab_command(&mut manager, TabCommand::NewTab, "/tmp".to_string()).unwrap();
    assert_eq!(opened.opened, Some(PaneId::new(1)));
    handle_tab_command(&mut manager, TabCommand::NewTab, "/tmp".to_string()).unwrap();
    assert_eq!(manager.active_tab_id(), TabId::new(2));
    handle_tab_command(&mut manager, TabCommand::NextTab, String::new()).unwrap();
    assert_eq!(manager.active_tab_id(), TabId::new(0));
    handle_tab_command(&mut manager, TabCommand::PreviousTab, String::new()).unwrap();
    assert_eq!(manager.active_tab_id(), TabId::new(2));
    handle_tab_command(&mut manager, TabCommand::PreviousTab, String::new()).unwrap();
    assert_eq!(manager.active_tab_id(), TabId::new(1));
    let closed = handle_tab_command(&mut manager, TabCommand::CloseCurrentTab, String::new()).unwrap();
    assert_eq!(closed.closed, vec![PaneId::new(1)]);
    assert_eq!(manager.tab_ids(), vec![TabId::new(0), TabId::new(2)]);
}

#[test]
fn layout_commands_report_what_to_save_and_redraw() {
    let mut manager = manager();
    let split = handle_layout_command(&mut manager, LayoutCommand::SplitFocused(SplitDirection::Vertical), area(80, 24), "/tmp".to_string()).unwrap();
    assert!(split.persist && split.ui_dirty);
    assert_eq!(split.opened, Some(PaneId::new(1)));
    let scroll = handle_layout_command(&mut manager, LayoutCommand::ScrollUpLines(1), area(80, 24), String::new()).unwrap();
    assert!(!scroll.persist && scroll.ui_dirty);
    let close = handle_layout_command(&mut manager, LayoutCommand::CloseFocusedPane, area(80, 24), String::new()).unwrap();
    assert_eq!(close.closed, Some(PaneId::new(1)));
    assert!(handle_layout_command(&mut manager, LayoutCommand::CloseFocusedPane, area(80, 24), String::new()).is_err());
}
