use mtrm::base::{PaneId, TabId};
use mtrm::help::{
    help_body_rows, help_key, help_overlay_lines, help_text_for_profile, is_toggle_help_overlay_event,
    keybindings_section_row, max_help_scroll_col, max_help_scroll_row, opened_help_overlay, HelpKeyOutcome,
    HelpOverlayState,
};
use mtrm::keymap::Keymap;
use mtrm::keys::{KeyCode, KeyEvent, KeyModifiers, ALT_BITS, CONTROL_BITS, SHIFT_BITS};
use mtrm::platform_keys::{key_bindings_for_profile, PlatformKeyProfile};
use mtrm::rename::{
    is_start_rename_pane_event, is_start_rename_tab_event, open_rename_pane_state, open_rename_tab_state, rename_key,
    RenameStep, RenameTarget,
};
use mtrm::selection::tab_id_at_position;
use mtrm::tabs::{RuntimeTabSummary, TabManager};

fn key_event(code: KeyCode, bits: u8) -> KeyEvent {
    KeyEvent { code, modifiers: KeyModifiers { bits } }
}

fn help_text() -> String {
    help_text_for_profile(PlatformKeyProfile::Linux)
}

/// The overlay as the application opens it for a content area `height` rows high.
fn opened(height: u16) -> (HelpOverlayState, usize, usize, usize) {
    let lines = help_overlay_lines(PlatformKeyProfile::Linux);
    let page = help_body_rows(height);
    let max_row = max_help_scroll_row(lines.len(), page);
    let max_col = max_help_scroll_col(&lines);
    (opened_help_overlay(keybindings_section_row(&lines), max_row), page, max_row, max_col)
}

fn scrolled(outcome: HelpKeyOutcome) -> HelpOverlayState {
    match outcome {
        HelpKeyOutcome::Scroll(state) => state,
        other => panic!("expected a scroll, got {other:?}"),
    }
}

#[test]
fn help_text_mentions_keybindings_and_keymap_file() {
    let help = help_text();

    assert!(help.contains("Keybindings:"));
    assert!(help.contains("--no-clipboard"));
    assert!(help.contains("Ctrl+C           Copy selection"));
    assert!(help.contains("Alt+T            New tab"));
    assert!(help.contains("Alt+Shift+R      Rename current tab"));
    assert!(help.contains("Alt+Shift+E      Rename current pane"));
    assert!(help.contains("Shift+F1         Open help overlay"));
    assert!(help.contains("Alt+Shift+Left   Resize pane left"));
    assert!(help.contains("Alt+Shift+Right  Resize pane right"));
    assert!(help.contains("Shift+PageUp     Scroll pane history up by one page"));
    assert!(help.contains("~/.mtrm/keymap.toml"));
}

#[test]
fn help_text_for_macos_profile_mentions_new_bindings_and_not_old_ones() {
    let help = help_text_for_profile(PlatformKeyProfile::MacOs);

    assert!(help.contains("Ctrl+G           Open help overlay"));
    assert!(help.contains("Ctrl+S           Split active pane left/right"));
    assert!(help.contains("Ctrl+Shift+S     Split active pane top/bottom"));
    assert!(help.contains("Ctrl+B           Focus pane left"));
    assert!(help.contains("Ctrl+F           Focus pane right"));
    assert!(help.contains("Ctrl+P           Focus pane up"));
    assert!(help.contains("Ctrl+N           Focus pane down"));
    assert!(help.contains("Ctrl+Shift+X     Save state and quit"));
    assert!(!help.contains("Ctrl+/           Open help overlay"));
    assert!(!help.contains("Ctrl+Shift+Q     Save state and quit"));
}

#[test]
fn macos_profile_rejects_old_problematic_help_and_quit_shortcuts() {
    assert!(!is_toggle_help_overlay_event(key_event(KeyCode::Char('/'), CONTROL_BITS)));
    assert!(!key_bindings_for_profile(PlatformKeyProfile::MacOs)
        .quit
        .matches(key_event(KeyCode::Char('Q'), CONTROL_BITS | SHIFT_BITS), &vec!['Q', 'q']));
}

#[test]
fn platform_key_profiles_macos_profile_rename_shortcuts_are_detected() {
    let keymap = Keymap::default();

    assert!(is_start_rename_tab_event(
        key_event(KeyCode::Char('R'), CONTROL_BITS | SHIFT_BITS),
        &keymap,
        PlatformKeyProfile::MacOs
    ));
    assert!(is_start_rename_pane_event(
        key_event(KeyCode::Char('E'), CONTROL_BITS | SHIFT_BITS),
        &keymap,
        PlatformKeyProfile::MacOs
    ));
}

#[test]
fn rename_and_clipboard_macos_profile_rename_shortcuts_are_detected() {
    let keymap = Keymap::default();

    assert!(is_start_rename_tab_event(
        key_event(KeyCode::Char('R'), CONTROL_BITS | SHIFT_BITS),
        &keymap,
        PlatformKeyProfile::MacOs
    ));
    assert!(is_start_rename_pane_event(
        key_event(KeyCode::Char('E'), CONTROL_BITS | SHIFT_BITS),
        &keymap,
        PlatformKeyProfile::MacOs
    ));
}

#[test]
fn linux_rename_shortcuts_accept_latin_and_russian_letters() {
    let keymap = Keymap::default();
    let profile = PlatformKeyProfile::Linux;

    assert!(is_start_rename_tab_event(key_event(KeyCode::Char('R'), ALT_BITS | SHIFT_BITS), &keymap, profile));
    assert!(is_start_rename_tab_event(key_event(KeyCode::Char('К'), ALT_BITS | SHIFT_BITS), &keymap, profile));
    assert!(is_start_rename_pane_event(key_event(KeyCode::Char('E'), ALT_BITS | SHIFT_BITS), &keymap, profile));
    assert!(is_start_rename_pane_event(key_event(KeyCode::Char('У'), ALT_BITS | SHIFT_BITS), &keymap, profile));
    assert!(!is_start_rename_tab_event(key_event(KeyCode::Char('r'), ALT_BITS), &keymap, profile));
}

#[test]
fn tab_hit_testing_returns_clicked_tab_only_inside_title_span() {
    let tabs = vec![
        RuntimeTabSummary { id: TabId::new(0), title: "One".to_owned(), active: true },
        RuntimeTabSummary { id: TabId::new(1), title: "Two".to_owned(), active: false },
    ];

    assert_eq!(tab_id_at_position(&tabs, 80, 0, 0), Some(TabId::new(0)));
    assert_eq!(tab_id_at_position(&tabs, 80, 2, 0), Some(TabId::new(0)));
    assert_eq!(tab_id_at_position(&tabs, 80, 3, 0), None);
    assert_eq!(tab_id_at_position(&tabs, 80, 4, 0), None);
    assert_eq!(tab_id_at_position(&tabs, 80, 5, 0), None);
    assert_eq!(tab_id_at_position(&tabs, 80, 6, 0), Some(TabId::new(1)));
    assert_eq!(tab_id_at_position(&tabs, 80, 0, 1), None);
}

#[test]
fn shift_f1_opens_help_overlay_and_escape_closes_it() {
    assert!(is_toggle_help_overlay_event(key_event(KeyCode::F(1), SHIFT_BITS)));
    let (help, page, max_row, max_col) = opened(23);
    assert!(help.scroll_row > 0, "help should open near keybindings");

    assert_eq!(help_key(help, key_event(KeyCode::Esc, 0), page, max_row, max_col), HelpKeyOutcome::Close);
    assert_eq!(help_key(help, key_event(KeyCode::F(1), SHIFT_BITS), page, max_row, max_col), HelpKeyOutcome::Close);
}

#[test]
fn help_overlay_consumes_plain_text_input_instead_of_sending_it_to_pty() {
    let (help, page, max_row, max_col) = opened(23);
    assert_eq!(help_key(help, key_event(KeyCode::Char('x'), 0), page, max_row, max_col), HelpKeyOutcome::Ignore);
}

#[test]
fn help_overlay_arrow_keys_scroll_text() {
    let (initial, page, max_row, max_col) = opened(40);
    let down = scrolled(help_key(initial, key_event(KeyCode::Down, 0), page, max_row, max_col));
    let updated = scrolled(help_key(down, key_event(KeyCode::Right, 0), page, max_row, max_col));

    assert_eq!(updated.scroll_row, initial.scroll_row + 1);
    assert_eq!(updated.scroll_col, initial.scroll_col + 1);
}

#[test]
fn help_overlay_down_key_keeps_scrolling_on_tall_terminal() {
    let (initial, page, max_row, max_col) = opened(40);
    let once = scrolled(help_key(initial, key_event(KeyCode::Down, 0), page, max_row, max_col));
    let updated = scrolled(help_key(once, key_event(KeyCode::Down, 0), page, max_row, max_col));

    assert_eq!(updated.scroll_row, initial.scroll_row + 2);
}

#[test]
fn help_overlay_home_end_and_pages_stay_within_limits() {
    let (initial, page, max_row, max_col) = opened(10);
    let end = scrolled(help_key(initial, key_event(KeyCode::End, 0), page, max_row, max_col));
    assert_eq!(end, HelpOverlayState { scroll_row: max_row, scroll_col: max_col });
    let past = scrolled(help_key(end, key_event(KeyCode::PageDown, 0), page, max_row, max_col));
    assert_eq!(past.scroll_row, max_row);
    let home = scrolled(help_key(end, key_event(KeyCode::Home, 0), page, max_row, max_col));
    assert_eq!(home, HelpOverlayState { scroll_row: 0, scroll_col: 0 });
    let up = scrolled(help_key(home, key_event(KeyCode::PageUp, 0), page, max_row, max_col));
    assert_eq!(up.scroll_row, 0);
}

#[test]
fn help_body_rows_follow_the_modal_height() {
    assert_eq!(help_body_rows(40), 17);
    assert_eq!(help_body_rows(3), 1);
    assert_eq!(help_body_rows(0), 1);
}

#[test]
fn rename_tab_modal_applies_typed_title() {
    let tabs = TabManager::new("/tmp".to_string());
    let mut state = open_rename_tab_state(&tabs);
    assert_eq!(state.input, "Tab 1");
    for _ in 0..5 {
        state = match rename_key(state, key_event(KeyCode::Backspace, 0)) {
            RenameStep::Edit { state, .. } => state,
            other => panic!("unexpected {other:?}"),
        };
    }
    for ch in "build".chars() {
        state = match rename_key(state, key_event(KeyCode::Char(ch), 0)) {
            RenameStep::Edit { state, .. } => state,
            other => panic!("unexpected {other:?}"),
        };
    }
    assert_eq!(
        rename_key(state, key_event(KeyCode::Enter, 0)),
        RenameStep::Commit { target: RenameTarget::Tab(TabId::new(0)), title: "build".to_string() }
    );
}

#[test]
fn rename_tab_modal_esc_cancels_changes() {
    let tabs = TabManager::new("/tmp".to_string());
    let state = open_rename_tab_state(&tabs);
    let state = match rename_key(state, key_event(KeyCode::Char('x'), 0)) {
        RenameStep::Edit { state, changed } => {
            assert!(changed);
            state
        },
        other => panic!("unexpected {other:?}"),
    };
    assert_eq!(rename_key(state, key_event(KeyCode::Esc, 0)), RenameStep::Cancel);
    assert_eq!(tabs.active_tab_title(), "Tab 1");
}

#[test]
fn rename_pane_modal_opens_with_default_pane_title_and_blank_input_restores_it() {
    let tabs = TabManager::new("/tmp".to_string());
    let mut state = open_rename_pane_state(&tabs);
    assert_eq!(state.input, "pane-0");
    assert_eq!(state.target, RenameTarget::Pane(PaneId::new(0)));
    for _ in 0..6 {
        state = match rename_key(state, key_event(KeyCode::Backspace, 0)) {
            RenameStep::Edit { state, .. } => state,
            other => panic!("unexpected {other:?}"),
        };
    }
    state = match rename_key(state, key_event(KeyCode::Char(' '), 0)) {
        RenameStep::Edit { state, .. } => state,
        other => panic!("unexpected {other:?}"),
    };
    assert_eq!(
        rename_key(state, key_event(KeyCode::Enter, 0)),
        RenameStep::Commit { target: RenameTarget::Pane(PaneId::new(0)), title: "pane-0".to_string() }
    );
}
