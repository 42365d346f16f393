use mtrm::base::{PaneId, TabId};
use mtrm::frame::build_frame_view;
use mtrm::layout::{LayoutTree, Rect};
use mtrm::session::{PaneSnapshot, SessionSnapshot, TabSnapshot};
use mtrm::tabs::{is_restorable, TabManager};
use mtrm::ui::ModalView;

fn frame_text(lines: &[mtrm::screen::ScreenLine]) -> String {
    lines
        .iter()
        .map(|line| {
            line.cells
                .iter()
                .map(|cell| if cell.has_contents { cell.text.clone() } else { " ".to_owned() })
                .collect::<String>()
        })
        .collect::<Vec<_>>()
        .join("\n")
}

#[test]
fn build_frame_view_uses_pane_title_from_snapshot_data() {
    let snapshot = SessionSnapshot {
        tabs: vec![TabSnapshot {
            id: TabId::new(1),
            title: "main".to_owned(),
            layout: LayoutTree::new(PaneId::new(10)).to_snapshot(),
            panes: vec![PaneSnapshot { id: PaneId::new(10), cwd: "/tmp/pane".to_owned(), title: "editor".to_owned() }],
            active_pane: PaneId::new(10),
        }],
        active_tab: TabId::new(1),
    };
    assert!(is_restorable(&snapshot));
    let tabs = TabManager::from_snapshot(snapshot).unwrap();

    let frame = build_frame_view(
        &tabs,
        Rect { x: 0, y: 0, width: 80, height: 24 },
        None,
        &None,
        None,
        &Vec::new(),
        &None,
        true,
    )
    .unwrap();

    assert_eq!(frame.panes[0].title, "editor");
    assert_eq!(frame.tabs.len(), 1);
    assert_eq!(frame.tabs[0].title, "main");
    assert!(frame.tabs[0].active);
}

#[test]
fn build_frame_view_hides_cursor_for_scrolled_fullscreen_history() {
    let mut tabs = TabManager::new("/tmp".to_string());
    let content_area = Rect { x: 0, y: 0, width: 40, height: 8 };

    tabs.resize_active_tab(content_area).unwrap();
    tabs.inject_bytes_into_active_pane_screen(b"\x1b[?1049h").unwrap();
    tabs.inject_bytes_into_active_pane_screen(b"\x1b[2J\x1b[Hframe1").unwrap();
    tabs.inject_bytes_into_active_pane_screen(b"\x1b[2J\x1b[Hframe2").unwrap();
    tabs.inject_bytes_into_active_pane_screen(b"\x1b[2J\x1b[Hframe3").unwrap();

    tabs.scroll_active_pane_up_lines(1).unwrap();

    let frame = build_frame_view(&tabs, content_area, None, &None, None, &Vec::new(), &None, true).unwrap();
    assert_eq!(frame.panes.len(), 1);
    assert!(frame_text(&frame.panes[0].lines).contains("frame2"));
    assert_eq!(frame.panes[0].cursor, None);
}

#[test]
fn build_frame_view_shows_cursor_of_live_active_pane_and_notice() {
    let mut tabs = TabManager::new("/tmp".to_string());
    let content_area = Rect { x: 0, y: 0, width: 40, height: 8 };
    tabs.resize_active_tab(content_area).unwrap();
    tabs.inject_bytes_into_active_pane_screen(b"ab").unwrap();

    let notice = Some("Clipboard is unavailable".to_string());
    let frame = build_frame_view(&tabs, content_area, None, &None, None, &Vec::new(), &notice, false).unwrap();
    assert_eq!(frame.panes[0].cursor, Some((0, 2)));
    assert!(frame.panes[0].active);
    assert!(!frame.focused);
    assert_eq!(frame.clipboard_notice.unwrap().text, "Clipboard is unavailable");
    assert!(frame.modal.is_none());
}

#[test]
fn build_frame_view_shows_help_modal_when_open() {
    let tabs = TabManager::new("/tmp".to_string());
    let lines = mtrm::help::help_overlay_lines(mtrm::platform_keys::PlatformKeyProfile::Linux);
    let help = mtrm::help::HelpOverlayState { scroll_row: 3, scroll_col: 1 };
    let frame = build_frame_view(
        &tabs,
        Rect { x: 0, y: 0, width: 40, height: 8 },
        None,
        &None,
        Some(help),
        &lines,
        &None,
        true,
    )
    .unwrap();
    match frame.modal {
        Some(ModalView::Text(text)) => {
            assert_eq!(text.lines, lines);
            assert_eq!(text.scroll_row, 3);
            assert_eq!(text.scroll_col, 1);
        },
        other => panic!("expected the help modal, got {other:?}"),
    }
}
