use mtrm::base::{FocusMoveDirection, PaneId, ResizeDirection, SplitDirection, TabId};
use mtrm::clipboard::ClipboardBackend;
use mtrm::commands::{after_save, CommandStep};
use mtrm::errors::TabsError;
use mtrm::layout::{LayoutError, Rect};
use mtrm::tabs::TabManager;

fn area() -> Rect {
    Rect { x: 0, y: 0, width: 80, height: 24 }
}

fn saved_pane_ids(manager: &TabManager) -> Vec<Vec<PaneId>> {
    manager
        .snapshot()
        .expect("a session can always be saved")
        .tabs
        .iter()
        .map(|tab| tab.panes.iter().map(|pane| pane.id).collect())
        .collect()
}

#[test]
fn every_operation_leaves_a_session_that_saves() {
    let mut manager = TabManager::new("/tmp".to_string());
    manager.split_active_pane(SplitDirection::Vertical, "/tmp/a".to_string()).unwrap();
    assert!(manager.snapshot().is_ok());
    manager.split_active_pane(SplitDirection::Horizontal, "/tmp/b".to_string()).unwrap();
    manager.move_focus(FocusMoveDirection::Left).unwrap();
    assert!(manager.snapshot().is_ok());
    manager.resize_active_pane(ResizeDirection::Right, area()).unwrap();
    manager.new_tab("/tmp/c".to_string());
    manager.rename_tab(TabId::new(1), "second".to_string()).unwrap();
    manager.rename_pane(PaneId::new(3), "editor".to_string()).unwrap();
    assert!(manager.snapshot().is_ok());
    assert_eq!(manager.close_active_pane(), Err(TabsError::Layout(LayoutError::CannotCloseLastPane)));
    manager.activate_tab(TabId::new(0)).unwrap();
    manager.close_active_pane().unwrap();
    manager.resize_active_tab(area()).unwrap();
    manager.close_active_tab().unwrap();
    let saved = manager.snapshot().unwrap();
    assert_eq!(saved.tabs.len(), 1);
    assert_eq!(saved.tabs[0].title, "second");
    assert_eq!(saved.tabs[0].panes[0].title, "editor");
}

#[test]
fn closing_a_new_tab_gives_back_the_tabs() {
    let mut manager = TabManager::new("/tmp".to_string());
    manager.split_active_pane(SplitDirection::Vertical, "/tmp/a".to_string()).unwrap();
    let before_ids = manager.tab_ids();
    let before_panes = saved_pane_ids(&manager);

    let opened = manager.new_tab("/tmp/b".to_string());
    assert_eq!(manager.close_active_tab(), Ok(opened));

    assert_eq!(manager.tab_ids(), before_ids);
    assert_eq!(saved_pane_ids(&manager), before_panes);
    assert_eq!(manager.active_tab_id(), TabId::new(0));
}

#[test]
fn closing_a_split_pane_gives_back_the_panes() {
    let mut manager = TabManager::new("/tmp".to_string());
    manager.split_active_pane(SplitDirection::Horizontal, "/tmp/a".to_string()).unwrap();
    manager.move_focus(FocusMoveDirection::Up).unwrap();
    let before = manager.active_tab_pane_ids();
    let placements_before: Vec<PaneId> = manager.placements(area()).unwrap().iter().map(|p| p.0).collect();

    let opened = manager.split_active_pane(SplitDirection::Vertical, "/tmp/b".to_string()).unwrap();
    assert_eq!(manager.active_pane_id(), opened);
    assert_eq!(manager.close_active_pane(), Ok(opened));

    assert_eq!(manager.active_tab_pane_ids(), before);
    let placements_after: Vec<PaneId> = manager.placements(area()).unwrap().iter().map(|p| p.0).collect();
    assert_eq!(placements_after, placements_before);
}

#[test]
fn closing_a_split_pane_gives_back_the_layout_and_its_weights() {
    let mut layout = mtrm::layout::LayoutTree::new(PaneId::new(1));
    layout.split_focused(SplitDirection::Vertical, PaneId::new(2));
    layout.focus_pane(PaneId::new(1)).unwrap();
    let wide = Rect { x: 0, y: 0, width: 40, height: 12 };
    assert_eq!(layout.resize_focused(mtrm::base::ResizeDirection::Right, wide), Ok(true));
    let before = layout.placements(wide);

    layout.split_focused(SplitDirection::Horizontal, PaneId::new(3));
    assert_eq!(layout.close_focused(), Ok(PaneId::new(3)));
    assert_eq!(layout.placements(wide).iter().map(|p| (p.pane_id, p.rect)).collect::<Vec<_>>(),
        before.iter().map(|p| (p.pane_id, p.rect)).collect::<Vec<_>>());

    layout.focus_pane(PaneId::new(1)).unwrap();
    layout.split_focused(SplitDirection::Vertical, PaneId::new(4));
    assert_eq!(layout.close_focused(), Ok(PaneId::new(4)));
    assert_eq!(layout.placements(wide).iter().map(|p| (p.pane_id, p.rect)).collect::<Vec<_>>(),
        before.iter().map(|p| (p.pane_id, p.rect)).collect::<Vec<_>>());
}

#[test]
fn pane_ids_rise_by_one_whatever_else_is_handed_out() {
    let mut allocator = mtrm::base::IdAllocator::new();
    let first = allocator.next_pane_id();
    allocator.next_tab_id();
    allocator.next_split_id();
    allocator.next_tab_id();
    let second = allocator.next_pane_id();
    assert_eq!(second.get(), first.get() + 1);
}

#[test]
fn memory_clipboard_gives_back_the_last_write() {
    let mut clipboard = mtrm::clipboard::MemoryClipboard::new();
    clipboard.set_text("one").unwrap();
    clipboard.set_text("").unwrap();
    clipboard.set_text("one\ntwo\nthree").unwrap();
    assert_eq!(clipboard.get_text().unwrap(), "one\ntwo\nthree");
    assert_eq!(clipboard.get_text().unwrap(), "one\ntwo\nthree");
}

#[test]
fn selection_text_does_not_depend_on_the_anchor() {
    let mut screen = mtrm::screen::TerminalScreen::new(3, 10, 10);
    screen.process_bytes(b"hello\r\nworld\r\nagain");
    let lines = screen.visible_lines();
    let forward = mtrm::selection::selection_text_from_lines(&lines, (0, 2), (2, 1));
    let backward = mtrm::selection::selection_text_from_lines(&lines, (2, 1), (0, 2));
    assert_eq!(forward, backward);
    assert_eq!(forward, "llo\nworld\nag");
}

#[test]
fn reachable_layouts_place_each_pane_once() {
    let mut layout = mtrm::layout::LayoutTree::new(PaneId::new(1));
    layout.split_focused(SplitDirection::Vertical, PaneId::new(2));
    layout.split_focused(SplitDirection::Horizontal, PaneId::new(3));
    layout.close_focused().unwrap();
    layout.split_focused(SplitDirection::Vertical, PaneId::new(4));
    layout.focus_pane(PaneId::new(1)).unwrap();
    layout.split_focused(SplitDirection::Horizontal, PaneId::new(5));
    let ids = layout.pane_ids();
    let mut sorted = ids.clone();
    sorted.sort_by_key(|p| p.get());
    sorted.dedup();
    assert_eq!(sorted.len(), ids.len());
    let placed: Vec<PaneId> = layout.placements(area()).iter().map(|p| p.pane_id).collect();
    assert_eq!(placed, ids);
}

#[test]
fn placements_tile_the_area() {
    let mut layout = mtrm::layout::LayoutTree::new(PaneId::new(1));
    layout.split_focused(SplitDirection::Vertical, PaneId::new(2));
    layout.split_focused(SplitDirection::Horizontal, PaneId::new(3));
    layout.split_focused(SplitDirection::Horizontal, PaneId::new(4));
    layout.focus_pane(PaneId::new(1)).unwrap();
    layout.split_focused(SplitDirection::Vertical, PaneId::new(5));
    let area = Rect { x: 3, y: 2, width: 41, height: 13 };
    let placements = layout.placements(area);
    for px in 0..50u16 {
        for py in 0..20u16 {
            let holders = placements
                .iter()
                .filter(|p| p.rect.x <= px && px < p.rect.x + p.rect.width && p.rect.y <= py && py < p.rect.y + p.rect.height)
                .count();
            let inside = area.x <= px && px < area.x + area.width && area.y <= py && py < area.y + area.height;
            assert_eq!(holders, if inside { 1 } else { 0 });
        }
    }
}

#[test]
fn quitting_waits_for_a_saved_session() {
    assert_eq!(after_save(CommandStep::SaveAndQuit, true), (true, None));
    assert_eq!(after_save(CommandStep::SaveAndQuit, false), (false, Some("Failed to save state")));
    assert_eq!(after_save(CommandStep::Save, true), (false, None));
    assert_eq!(after_save(CommandStep::Save, false), (false, Some("Failed to save state")));
}
