use mtrm::base::{AppCommand, ClipboardCommand, LayoutCommand, PaneId, SplitDirection, TabCommand, TabId};
use mtrm::commands::{plan_command, CommandStep};
use mtrm::config::resolve_paths_from_home;
use mtrm::input::{route_key, InputAction, KeyRoute};
use mtrm::keymap::{keymap_file_path_from_paths, Keymap};
use mtrm::keys::{KeyCode, KeyEvent, KeyModifiers, NavigationAction, ALT_BITS, SHIFT_BITS};
use mtrm::layout::Rect;
use mtrm::platform_keys::PlatformKeyProfile;
use mtrm::selection::{
    drag_selection_target, pointer_press, selection_target_at, PaneSelectionTarget, PointerPress, SelectionPoint,
    SelectionState,
};
use mtrm::shell::{default_shell_config, interrupt_delivery, InterruptDelivery};
use mtrm::snapshot::{repr_is_ok, LayoutNodeSnapshotRepr, LayoutSplitChildSnapshotRepr, LayoutSplitSnapshotRepr};
use mtrm::tabs::RuntimeTabSummary;

fn key_event(code: KeyCode, bits: u8) -> KeyEvent {
    KeyEvent { code, modifiers: KeyModifiers { bits } }
}

fn selection(anchor: (u16, u16), focus: (u16, u16)) -> SelectionState {
    SelectionState {
        pane_id: PaneId::new(3),
        anchor: SelectionPoint { row: anchor.0, col: anchor.1 },
        focus: SelectionPoint { row: focus.0, col: focus.1 },
    }
}

#[test]
fn copy_plans_the_selection_only_when_it_covers_cells() {
    let copy = AppCommand::Clipboard(ClipboardCommand::CopySelection);
    let plan = plan_command(copy, Some(selection((0, 1), (2, 3))));
    assert_eq!(plan.step, CommandStep::CopySelection(selection((0, 1), (2, 3))));
    assert!(!plan.clear_selection);
    assert_eq!(plan_command(copy, Some(selection((1, 1), (1, 1)))).step, CommandStep::Nothing);
    assert_eq!(plan_command(copy, None).step, CommandStep::Nothing);
}

#[test]
fn commands_that_change_panes_drop_the_selection_and_name_their_failure() {
    let split = plan_command(AppCommand::Layout(LayoutCommand::SplitFocused(SplitDirection::Vertical)), None);
    assert!(split.clear_selection);
    assert_eq!(split.step, CommandStep::Layout(LayoutCommand::SplitFocused(SplitDirection::Vertical)));
    assert_eq!(split.failure_notice, "Failed to update layout");

    let tabs = plan_command(AppCommand::Tabs(TabCommand::NewTab), None);
    assert_eq!(tabs.failure_notice, "Failed to update tabs");
    assert_eq!(tabs.step, CommandStep::Tabs(TabCommand::NewTab));

    let interrupt = plan_command(AppCommand::SendInterrupt, None);
    assert_eq!(interrupt.step, CommandStep::Interrupt);
    assert_eq!(interrupt.failure_notice, "Failed to interrupt active process");

    let paste = plan_command(AppCommand::Clipboard(ClipboardCommand::PasteFromSystem), None);
    assert!(paste.clear_selection);
    assert_eq!(paste.step, CommandStep::Paste);

    let quit = plan_command(AppCommand::Quit, Some(selection((0, 0), (0, 4))));
    assert!(!quit.clear_selection);
    assert_eq!(quit.step, CommandStep::SaveAndQuit);
    assert_eq!(plan_command(AppCommand::RequestSave, None).step, CommandStep::Save);
}

fn two_panes() -> Vec<(PaneId, Rect, bool)> {
    vec![
        (PaneId::new(1), Rect { x: 0, y: 0, width: 10, height: 6 }, true),
        (PaneId::new(2), Rect { x: 10, y: 0, width: 10, height: 6 }, false),
    ]
}

#[test]
fn pointer_targets_follow_pane_content() {
    let panes = two_panes();
    // The content of a pane starts one column in and two rows down.
    assert_eq!(
        selection_target_at(&panes, 12, 3),
        Some(PaneSelectionTarget { pane_id: PaneId::new(2), point: SelectionPoint { row: 1, col: 1 } })
    );
    assert_eq!(selection_target_at(&panes, 0, 3), None);
    assert_eq!(selection_target_at(&panes, 5, 1), None);

    let dragging = SelectionState {
        pane_id: PaneId::new(1),
        anchor: SelectionPoint { row: 0, col: 0 },
        focus: SelectionPoint { row: 0, col: 0 },
    };
    assert_eq!(
        drag_selection_target(&panes, Some(dragging), 19, 30),
        Some(PaneSelectionTarget { pane_id: PaneId::new(1), point: SelectionPoint { row: 3, col: 7 } })
    );
    assert_eq!(drag_selection_target(&panes, None, 3, 3), None);
}

#[test]
fn pointer_press_prefers_tab_titles_then_pane_cells() {
    let tabs = vec![
        RuntimeTabSummary { id: TabId::new(0), title: "One".to_owned(), active: true },
        RuntimeTabSummary { id: TabId::new(1), title: "Two".to_owned(), active: false },
    ];
    let panes = two_panes();
    assert_eq!(pointer_press(&tabs, 20, &panes, 7, 0), PointerPress::ActivateTab(TabId::new(1)));
    assert_eq!(pointer_press(&tabs, 20, &panes, 4, 0), PointerPress::Clear);
    assert_eq!(
        pointer_press(&tabs, 20, &panes, 2, 2),
        PointerPress::Select(PaneSelectionTarget { pane_id: PaneId::new(1), point: SelectionPoint { row: 0, col: 1 } })
    );
}

#[test]
fn keys_route_to_rename_navigation_or_input() {
    let keymap = Keymap::default();
    let profile = PlatformKeyProfile::Linux;
    assert_eq!(
        route_key(key_event(KeyCode::Char('R'), ALT_BITS | SHIFT_BITS), &keymap, profile, false),
        KeyRoute::StartRenameTab
    );
    assert_eq!(
        route_key(key_event(KeyCode::Char('E'), ALT_BITS | SHIFT_BITS), &keymap, profile, false),
        KeyRoute::StartRenamePane
    );
    assert_eq!(
        route_key(key_event(KeyCode::End, 0), &keymap, profile, true),
        KeyRoute::Navigation(NavigationAction::ScrollToBottom)
    );
    assert_eq!(
        route_key(key_event(KeyCode::End, 0), &keymap, profile, false),
        KeyRoute::Navigation(NavigationAction::Write(b"\x1b[F".to_vec()))
    );
    assert_eq!(
        route_key(key_event(KeyCode::Home, 0), &keymap, profile, true),
        KeyRoute::Navigation(NavigationAction::Write(b"\x1b[H".to_vec()))
    );
    assert_eq!(
        route_key(key_event(KeyCode::Char('a'), 0), &keymap, profile, false),
        KeyRoute::Input(InputAction::PtyBytes(b"a".to_vec()))
    );
    assert_eq!(
        route_key(key_event(KeyCode::Char('t'), ALT_BITS), &keymap, profile, false),
        KeyRoute::Input(InputAction::Command(AppCommand::Tabs(TabCommand::NewTab)))
    );
}

#[test]
fn default_shell_is_the_environment_shell_or_bin_sh() {
    let config = default_shell_config(Some("/bin/zsh".to_string()), "/home/me".to_string(), None);
    assert_eq!(config.program, "/bin/zsh");
    assert_eq!(config.args, vec!["-i".to_string()]);
    assert_eq!(config.initial_cwd, "/home/me");
    assert_eq!(config.debug_log_path, None);

    let fallback = default_shell_config(None, "/tmp".to_string(), Some("/tmp/log".to_string()));
    assert_eq!(fallback.program, "/bin/sh");
    assert_eq!(fallback.debug_log_path, Some("/tmp/log".to_string()));
}

#[test]
fn interrupts_go_to_the_foreground_group_unless_the_shell_holds_it() {
    assert_eq!(interrupt_delivery(Some(42), 42), InterruptDelivery::WriteControlC);
    assert_eq!(interrupt_delivery(None, 42), InterruptDelivery::WriteControlC);
    assert_eq!(interrupt_delivery(Some(77), 42), InterruptDelivery::SignalGroup(77));
}

#[test]
fn written_layouts_are_checked_before_reading() {
    let pane = |id: u64| LayoutNodeSnapshotRepr { pane: Some(PaneId::new(id)), split: None };
    assert!(repr_is_ok(&pane(1)));
    assert!(!repr_is_ok(&LayoutNodeSnapshotRepr { pane: None, split: None }));
    let nary = LayoutNodeSnapshotRepr {
        pane: None,
        split: Some(LayoutSplitSnapshotRepr::Nary {
            direction: SplitDirection::Horizontal,
            children: vec![
                LayoutSplitChildSnapshotRepr { weight: 1, node: pane(1) },
                LayoutSplitChildSnapshotRepr { weight: 2, node: LayoutNodeSnapshotRepr { pane: None, split: None } },
            ],
        }),
    };
    assert!(!repr_is_ok(&nary));
    let empty = LayoutNodeSnapshotRepr {
        pane: None,
        split: Some(LayoutSplitSnapshotRepr::Nary { direction: SplitDirection::Vertical, children: vec![] }),
    };
    assert!(!repr_is_ok(&empty));
    let binary = LayoutNodeSnapshotRepr {
        pane: None,
        split: Some(LayoutSplitSnapshotRepr::Binary {
            direction: SplitDirection::Vertical,
            first: Box::new(pane(1)),
            second: Box::new(pane(2)),
        }),
    };
    assert!(repr_is_ok(&binary));
}

#[test]
fn keymap_file_lives_in_the_data_directory() {
    let paths = resolve_paths_from_home("/home/me".to_string()).unwrap();
    assert_eq!(keymap_file_path_from_paths(&paths), "/home/me/.mtrm/keymap.toml");
}
