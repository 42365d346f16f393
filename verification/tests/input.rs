use mtrm::base::{AppCommand, ClipboardCommand, FocusMoveDirection, LayoutCommand, ResizeDirection, SplitDirection, TabCommand};
use mtrm::input::{map_key_event_with_profile, InputAction};
use mtrm::keymap::{default_rename_pane_bindings, default_rename_tab_bindings, CommandsFile, Keymap, KeymapFile};
use mtrm::keys::{KeyCode, KeyEvent, KeyModifiers, ALT_BITS, CONTROL_BITS, SHIFT_BITS};
use mtrm::platform_keys::PlatformKeyProfile;

const NONE: u8 = 0;
const SHIFT: u8 = SHIFT_BITS;
const CONTROL: u8 = CONTROL_BITS;
const ALT: u8 = ALT_BITS;

fn key_event(code: KeyCode, bits: u8) -> KeyEvent {
    KeyEvent { code, modifiers: KeyModifiers { bits } }
}

fn map_key_event_with_keymap(event: KeyEvent, keymap: &Keymap) -> InputAction {
    mtrm::input::map_key_event_with_keymap(event, keymap, "linux")
}

fn map_key_event(event: KeyEvent) -> InputAction {
    mtrm::input::map_key_event(event, "linux")
}

fn strings(table: &toml::Table, name: &str) -> Option<Vec<String>> {
    table.get(name).and_then(|v| v.as_array()).map(|a| a.iter().map(|s| s.as_str().unwrap().to_string()).collect())
}

fn keymap_from_toml(text: &str) -> Keymap {
    let table: toml::Table = text.parse().unwrap();
    let commands = table.get("commands").unwrap().as_table().unwrap();
    let file = KeymapFile {
        commands: CommandsFile {
            copy: strings(commands, "copy").unwrap(),
            paste: strings(commands, "paste").unwrap(),
            interrupt: strings(commands, "interrupt").unwrap(),
            close_pane: strings(commands, "close_pane").unwrap(),
            new_tab: strings(commands, "new_tab").unwrap(),
            close_tab: strings(commands, "close_tab").unwrap(),
            rename_tab: strings(commands, "rename_tab").unwrap_or_else(default_rename_tab_bindings),
            rename_pane: strings(commands, "rename_pane").unwrap_or_else(default_rename_pane_bindings),
            quit: strings(commands, "quit").unwrap(),
            previous_tab: strings(commands, "previous_tab").unwrap(),
            next_tab: strings(commands, "next_tab").unwrap(),
        },
    };
    Keymap::try_from(file).unwrap()
}

fn cmd(command: AppCommand) -> InputAction {
    InputAction::Command(command)
}

fn layout(command: LayoutCommand) -> InputAction {
    cmd(AppCommand::Layout(command))
}

fn meta(ch: char) -> Vec<u8> {
    let mut bytes = vec![0x1b];
    bytes.extend_from_slice(ch.to_string().as_bytes());
    bytes
}

#[test]
fn maps_ctrl_c_to_copy_selection() {
    assert_eq!(map_key_event(key_event(KeyCode::Char('c'), CONTROL)), cmd(AppCommand::Clipboard(ClipboardCommand::CopySelection)));
}

#[test]
fn maps_ctrl_v_to_paste_from_system() {
    assert_eq!(map_key_event(key_event(KeyCode::Char('v'), CONTROL)), cmd(AppCommand::Clipboard(ClipboardCommand::PasteFromSystem)));
}

#[test]
fn maps_alt_x_to_interrupt() {
    assert_eq!(map_key_event(key_event(KeyCode::Char('x'), ALT)), cmd(AppCommand::SendInterrupt));
}

#[test]
fn ctrl_shift_c_is_not_reserved_for_interrupt() {
    assert_eq!(map_key_event(key_event(KeyCode::Char('c'), CONTROL | SHIFT)), InputAction::Ignore);
}

#[test]
fn maps_alt_arrows_to_focus_commands() {
    assert_eq!(map_key_event(key_event(KeyCode::Left, ALT)), layout(LayoutCommand::MoveFocus(FocusMoveDirection::Left)));
    assert_eq!(map_key_event(key_event(KeyCode::Right, ALT)), layout(LayoutCommand::MoveFocus(FocusMoveDirection::Right)));
    assert_eq!(map_key_event(key_event(KeyCode::Up, ALT)), layout(LayoutCommand::MoveFocus(FocusMoveDirection::Up)));
    assert_eq!(map_key_event(key_event(KeyCode::Down, ALT)), layout(LayoutCommand::MoveFocus(FocusMoveDirection::Down)));
}

#[test]
fn maps_shift_arrows_and_page_keys_to_scrollback_commands() {
    assert_eq!(map_key_event(key_event(KeyCode::Up, SHIFT)), layout(LayoutCommand::ScrollUpLines(1)));
    assert_eq!(map_key_event(key_event(KeyCode::Down, SHIFT)), layout(LayoutCommand::ScrollDownLines(1)));
    assert_eq!(map_key_event(key_event(KeyCode::PageUp, SHIFT)), layout(LayoutCommand::ScrollUpPages(1)));
    assert_eq!(map_key_event(key_event(KeyCode::PageDown, SHIFT)), layout(LayoutCommand::ScrollDownPages(1)));
    assert_eq!(map_key_event(key_event(KeyCode::End, NONE)), layout(LayoutCommand::ScrollToBottom));
}

#[test]
fn maps_alt_shift_arrows_to_resize_commands() {
    assert_eq!(map_key_event(key_event(KeyCode::Left, ALT | SHIFT)), layout(LayoutCommand::ResizeFocused(ResizeDirection::Left)));
    assert_eq!(map_key_event(key_event(KeyCode::Right, ALT | SHIFT)), layout(LayoutCommand::ResizeFocused(ResizeDirection::Right)));
    assert_eq!(map_key_event(key_event(KeyCode::Up, ALT | SHIFT)), layout(LayoutCommand::ResizeFocused(ResizeDirection::Up)));
    assert_eq!(map_key_event(key_event(KeyCode::Down, ALT | SHIFT)), layout(LayoutCommand::ResizeFocused(ResizeDirection::Down)));
}

#[test]
fn maps_shift_printable_characters_to_utf8_bytes() {
    assert_eq!(map_key_event(key_event(KeyCode::Char('A'), SHIFT)), InputAction::PtyBytes("A".as_bytes().to_vec()));
    assert_eq!(map_key_event(key_event(KeyCode::Char('Я'), SHIFT)), InputAction::PtyBytes("Я".as_bytes().to_vec()));
}

#[test]
fn maps_alt_split_and_close_commands() {
    assert_eq!(map_key_event(key_event(KeyCode::Char('-'), ALT)), layout(LayoutCommand::SplitFocused(SplitDirection::Vertical)));
    assert_eq!(map_key_event(key_event(KeyCode::Char('='), ALT)), layout(LayoutCommand::SplitFocused(SplitDirection::Horizontal)));
    assert_eq!(map_key_event(key_event(KeyCode::Char('q'), ALT)), layout(LayoutCommand::CloseFocusedPane));
}

#[test]
fn maps_alt_tab_commands() {
    assert_eq!(map_key_event(key_event(KeyCode::Char('t'), ALT)), cmd(AppCommand::Tabs(TabCommand::NewTab)));
    assert_eq!(map_key_event(key_event(KeyCode::Char(','), ALT)), cmd(AppCommand::Tabs(TabCommand::PreviousTab)));
    assert_eq!(map_key_event(key_event(KeyCode::Char('.'), ALT)), cmd(AppCommand::Tabs(TabCommand::NextTab)));
    assert_eq!(map_key_event(key_event(KeyCode::Char('w'), ALT)), cmd(AppCommand::Tabs(TabCommand::CloseCurrentTab)));
}

#[test]
fn maps_alt_printable_characters_to_meta_prefixed_bytes_when_not_commands() {
    assert_eq!(map_key_event(key_event(KeyCode::Char('b'), ALT)), InputAction::PtyBytes(vec![0x1b, b'b']));
    assert_eq!(map_key_event(key_event(KeyCode::Char('Б'), ALT)), InputAction::PtyBytes(meta('Б')));
}

#[test]
fn maps_alt_shift_q_to_quit() {
    assert_eq!(map_key_event(key_event(KeyCode::Char('Q'), ALT | SHIFT)), cmd(AppCommand::Quit));
}

#[test]
fn maps_alt_shift_printable_characters_to_meta_prefixed_bytes_when_not_quit() {
    assert_eq!(map_key_event(key_event(KeyCode::Char('B'), ALT | SHIFT)), InputAction::PtyBytes(vec![0x1b, b'B']));
    assert_eq!(map_key_event(key_event(KeyCode::Char('Я'), ALT | SHIFT)), InputAction::PtyBytes(meta('Я')));
}

#[test]
fn russian_layout_hotkeys_map_to_same_commands() {
    assert_eq!(map_key_event(key_event(KeyCode::Char('е'), ALT)), cmd(AppCommand::Tabs(TabCommand::NewTab)));
    assert_eq!(map_key_event(key_event(KeyCode::Char('й'), ALT)), layout(LayoutCommand::CloseFocusedPane));
    assert_eq!(map_key_event(key_event(KeyCode::Char('ц'), ALT)), cmd(AppCommand::Tabs(TabCommand::CloseCurrentTab)));
    assert_eq!(map_key_event(key_event(KeyCode::Char('Й'), ALT | SHIFT)), cmd(AppCommand::Quit));
}

#[test]
fn default_keymap_supports_french_and_greek_symbols() {
    let keymap = Keymap::default();
    assert_eq!(map_key_event_with_keymap(key_event(KeyCode::Char('a'), ALT), &keymap), layout(LayoutCommand::CloseFocusedPane));
    assert_eq!(map_key_event_with_keymap(key_event(KeyCode::Char('z'), ALT), &keymap), cmd(AppCommand::Tabs(TabCommand::CloseCurrentTab)));
    assert_eq!(
        map_key_event_with_keymap(key_event(KeyCode::Char('ψ'), CONTROL), &keymap),
        cmd(AppCommand::Clipboard(ClipboardCommand::CopySelection))
    );
    assert_eq!(
        map_key_event_with_keymap(key_event(KeyCode::Char('ω'), CONTROL), &keymap),
        cmd(AppCommand::Clipboard(ClipboardCommand::PasteFromSystem))
    );
    assert_eq!(map_key_event_with_keymap(key_event(KeyCode::Char('χ'), ALT), &keymap), cmd(AppCommand::SendInterrupt));
    assert_eq!(map_key_event_with_keymap(key_event(KeyCode::Char('τ'), ALT), &keymap), cmd(AppCommand::Tabs(TabCommand::NewTab)));
    assert_eq!(map_key_event_with_keymap(key_event(KeyCode::Char(':'), ALT | SHIFT), &keymap), cmd(AppCommand::Quit));
}

#[test]
fn maps_ctrl_printable_characters_to_control_bytes_when_not_reserved() {
    assert_eq!(map_key_event(key_event(KeyCode::Char('a'), CONTROL)), InputAction::PtyBytes(vec![0x01]));
    assert_eq!(map_key_event(key_event(KeyCode::Char('z'), CONTROL)), InputAction::PtyBytes(vec![0x1a]));
    assert_eq!(map_key_event(key_event(KeyCode::Char('['), CONTROL)), InputAction::PtyBytes(vec![0x1b]));
}

#[test]
fn keymap_only_changes_reserved_command_combos_not_shift_printable_passthrough() {
    let keymap = keymap_from_toml(
        r#"
[commands]
copy = ["λ"]
paste = ["π"]
interrupt = ["ι"]
close_pane = ["κ"]
new_tab = ["ν"]
close_tab = ["τ"]
quit = ["Ω"]
previous_tab = [","]
next_tab = ["."]
"#,
    );
    assert_eq!(map_key_event_with_keymap(key_event(KeyCode::Char('Я'), SHIFT), &keymap), InputAction::PtyBytes("Я".as_bytes().to_vec()));
    assert_eq!(map_key_event_with_keymap(key_event(KeyCode::Char('Ω'), ALT | SHIFT), &keymap), cmd(AppCommand::Quit));
    assert_eq!(map_key_event_with_keymap(key_event(KeyCode::Char('B'), ALT | SHIFT), &keymap), InputAction::PtyBytes(vec![0x1b, b'B']));
    assert_eq!(map_key_event_with_keymap(key_event(KeyCode::Char('a'), CONTROL), &keymap), InputAction::PtyBytes(vec![0x01]));
}

#[test]
fn custom_keymap_changes_letter_bindings() {
    let keymap = keymap_from_toml(
        "[commands]\ncopy=['λ']\npaste=['π']\ninterrupt=['ι']\nclose_pane=['κ']\nnew_tab=['ν']\nclose_tab=['χ']\nquit=['Ω']\nprevious_tab=['<']\nnext_tab=['>']\n",
    );
    assert_eq!(map_key_event_with_keymap(key_event(KeyCode::Char('ν'), ALT), &keymap), cmd(AppCommand::Tabs(TabCommand::NewTab)));
    assert_eq!(
        map_key_event_with_keymap(key_event(KeyCode::Char('λ'), CONTROL), &keymap),
        cmd(AppCommand::Clipboard(ClipboardCommand::CopySelection))
    );
}

#[test]
fn maps_ascii_character_to_utf8_bytes() {
    assert_eq!(map_key_event(key_event(KeyCode::Char('a'), NONE)), InputAction::PtyBytes(vec![b'a']));
}

#[test]
fn maps_non_ascii_character_to_utf8_bytes() {
    assert_eq!(map_key_event(key_event(KeyCode::Char('й'), NONE)), InputAction::PtyBytes("й".as_bytes().to_vec()));
}

#[test]
fn maps_enter_backspace_tab_and_escape_to_terminal_control_bytes() {
    assert_eq!(map_key_event(key_event(KeyCode::Enter, NONE)), InputAction::PtyBytes(vec![b'\r']));
    assert_eq!(map_key_event(key_event(KeyCode::Backspace, NONE)), InputAction::PtyBytes(vec![0x08]));
    assert_eq!(map_key_event(key_event(KeyCode::Tab, NONE)), InputAction::PtyBytes(vec![b'\t']));
    assert_eq!(map_key_event(key_event(KeyCode::Esc, NONE)), InputAction::PtyBytes(vec![0x1b]));
}

#[test]
fn maps_plain_arrows_to_pty_escape_sequences() {
    assert_eq!(map_key_event(key_event(KeyCode::Left, NONE)), InputAction::PtyBytes(b"\x1b[D".to_vec()));
    assert_eq!(map_key_event(key_event(KeyCode::Right, NONE)), InputAction::PtyBytes(b"\x1b[C".to_vec()));
    assert_eq!(map_key_event(key_event(KeyCode::Up, NONE)), InputAction::PtyBytes(b"\x1b[A".to_vec()));
    assert_eq!(map_key_event(key_event(KeyCode::Down, NONE)), InputAction::PtyBytes(b"\x1b[B".to_vec()));
}

#[test]
fn unsupported_non_printable_events_are_ignored() {
    assert_eq!(map_key_event(key_event(KeyCode::Insert, NONE)), InputAction::Ignore);
}

#[test]
fn maps_plain_function_keys_to_pty_escape_sequences() {
    let expected: [&[u8]; 12] = [
        b"\x1bOP", b"\x1bOQ", b"\x1bOR", b"\x1bOS", b"\x1b[15~", b"\x1b[17~", b"\x1b[18~", b"\x1b[19~", b"\x1b[20~", b"\x1b[21~",
        b"\x1b[23~", b"\x1b[24~",
    ];
    for (index, bytes) in expected.iter().enumerate() {
        assert_eq!(map_key_event(key_event(KeyCode::F(index as u8 + 1), NONE)), InputAction::PtyBytes(bytes.to_vec()));
    }
}

#[test]
fn platform_forwarders_agree_with_profiles() {
    let event = key_event(KeyCode::Char('-'), ALT);
    assert_eq!(
        mtrm::input::map_key_event(event, "linux"),
        map_key_event_with_profile(event, &Keymap::default(), PlatformKeyProfile::Linux)
    );
    assert_eq!(
        mtrm::input::map_key_event_with_keymap(event, &Keymap::default(), "macos"),
        map_key_event_with_profile(event, &Keymap::default(), PlatformKeyProfile::MacOs)
    );
    assert_eq!(
        mtrm::platform_keys::current_platform_key_bindings("linux"),
        mtrm::platform_keys::key_bindings_for_profile(PlatformKeyProfile::Linux)
    );
}

#[test]
fn default_keymap_is_the_default_keymap_file() {
    let parsed = keymap_from_toml(mtrm::keymap::default_keymap_toml());
    let default = Keymap::default();
    assert_eq!(format!("{:?}", parsed), format!("{:?}", default));
}
