//! What a key press does: a command of the program, bytes for the shell of
//! the active pane, or nothing.

use vstd::prelude::*;
use vstd::utf8::encode_scalar;

use crate::base::{
    AppCommand, ClipboardCommand, FocusMoveDirection, LayoutCommand, ResizeDirection,
    SplitDirection, TabCommand,
};
use crate::keymap::{is_default_keymap, Keymap};
use crate::keys::{navigation_action, KeyCode, KeyEvent, KeyModifiers, NavigationAction, ALT_BITS, CONTROL_BITS, SHIFT_BITS};
use crate::rename::{is_start_rename_pane_event, is_start_rename_tab_event};
use crate::platform_keys::{
    bindings_of, contains_char, current_platform_key_profile, key_bindings_for_profile, linux_bindings,
    profile_for_os, PlatformKeyBindings, PlatformKeyProfile,
};
use crate::text::char_utf8;

verus! {

/// What a key press does.
#[derive(Debug, Clone, PartialEq, Eq)]
pub enum InputAction {
    Command(AppCommand),
    PtyBytes(Vec<u8>),
    Ignore,
}

/// The mathematical form of an input action.
pub enum ActionModel {
    Command(AppCommand),
    PtyBytes(Seq<u8>),
    Ignore,
}

impl View for InputAction {
    type V = ActionModel;

    open spec fn view(&self) -> ActionModel {
        match self {
            InputAction::Command(c) => ActionModel::Command(*c),
            InputAction::PtyBytes(b) => ActionModel::PtyBytes(b@),
            InputAction::Ignore => ActionModel::Ignore,
        }
    }
}

/// The control byte a character gives with control held, if any.
pub open spec fn ctrl_byte(ch: char) -> Option<u8> {
    let b = ch as u32;
    if b == 0x40 || b == 0x20 {
        Some(0u8)
    } else if 0x61 <= b <= 0x7a {
        Some((b - 0x61 + 1) as u8)
    } else if 0x41 <= b <= 0x5a {
        Some((b - 0x41 + 1) as u8)
    } else if b == 0x5b {
        Some(0x1bu8)
    } else if b == 0x5c {
        Some(0x1cu8)
    } else if b == 0x5d {
        Some(0x1du8)
    } else if b == 0x5e {
        Some(0x1eu8)
    } else if b == 0x5f {
        Some(0x1fu8)
    } else {
        None
    }
}

/// The escape sequence of a function key, for F1 to F12.
pub open spec fn fkey_bytes(n: u8) -> Option<Seq<u8>> {
    if n == 1 {
        Some(seq![0x1bu8, 0x4f, 0x50])
    } else if n == 2 {
        Some(seq![0x1bu8, 0x4f, 0x51])
    } else if n == 3 {
        Some(seq![0x1bu8, 0x4f, 0x52])
    } else if n == 4 {
        Some(seq![0x1bu8, 0x4f, 0x53])
    } else if n == 5 {
        Some(seq![0x1bu8, 0x5b, 0x31, 0x35, 0x7e])
    } else if n == 6 {
        Some(seq![0x1bu8, 0x5b, 0x31, 0x37, 0x7e])
    } else if n == 7 {
        Some(seq![0x1bu8, 0x5b, 0x31, 0x38, 0x7e])
    } else if n == 8 {
        Some(seq![0x1bu8, 0x5b, 0x31, 0x39, 0x7e])
    } else if n == 9 {
        Some(seq![0x1bu8, 0x5b, 0x32, 0x30, 0x7e])
    } else if n == 10 {
        Some(seq![0x1bu8, 0x5b, 0x32, 0x31, 0x7e])
    } else if n == 11 {
        Some(seq![0x1bu8, 0x5b, 0x32, 0x33, 0x7e])
    } else if n == 12 {
        Some(seq![0x1bu8, 0x5b, 0x32, 0x34, 0x7e])
    } else {
        None
    }
}

/// The code is a character of `chars`.
pub open spec fn code_in(code: KeyCode, chars: Seq<char>) -> bool {
    match code {
        KeyCode::Char(ch) => chars.contains(ch),
        _ => false,
    }
}

/// The bytes a key sends to the shell with no modifier held.
pub open spec fn plain_key_action(code: KeyCode) -> ActionModel {
    match code {
        KeyCode::Char(ch) => ActionModel::PtyBytes(encode_scalar(ch as u32)),
        KeyCode::Enter => ActionModel::PtyBytes(seq![0x0du8]),
        KeyCode::Backspace => ActionModel::PtyBytes(seq![0x08u8]),
        KeyCode::Tab => ActionModel::PtyBytes(seq![0x09u8]),
        KeyCode::Esc => ActionModel::PtyBytes(seq![0x1bu8]),
        KeyCode::Left => ActionModel::PtyBytes(seq![0x1bu8, 0x5b, 0x44]),
        KeyCode::Right => ActionModel::PtyBytes(seq![0x1bu8, 0x5b, 0x43]),
        KeyCode::Up => ActionModel::PtyBytes(seq![0x1bu8, 0x5b, 0x41]),
        KeyCode::Down => ActionModel::PtyBytes(seq![0x1bu8, 0x5b, 0x42]),
        KeyCode::F(n) => match fkey_bytes(n) {
            Some(b) => ActionModel::PtyBytes(b),
            None => ActionModel::Ignore,
        },
        _ => ActionModel::Ignore,
    }
}

/// What a key press does once no shortcut matched, by the modifiers held.
pub open spec fn fallback_action(e: KeyEvent, k: Keymap, b: PlatformKeyBindings) -> ActionModel {
    let m = e.modifiers.bits;
    if m == 2 {
        if code_in(e.code, k.copy@) {
            ActionModel::Command(AppCommand::Clipboard(ClipboardCommand::CopySelection))
        } else if code_in(e.code, k.paste@) {
            ActionModel::Command(AppCommand::Clipboard(ClipboardCommand::PasteFromSystem))
        } else {
            match e.code {
                KeyCode::Char(ch) => match ctrl_byte(ch) {
                    Some(byte) => ActionModel::PtyBytes(seq![byte]),
                    None => ActionModel::Ignore,
                },
                _ => ActionModel::Ignore,
            }
        }
    } else if m == 4 {
        if b.interrupt.modifiers.bits == 4 && code_in(e.code, k.interrupt@) {
            ActionModel::Command(AppCommand::SendInterrupt)
        } else {
            match e.code {
                KeyCode::Char(ch) => ActionModel::PtyBytes(seq![0x1bu8] + encode_scalar(ch as u32)),
                _ => ActionModel::Ignore,
            }
        }
    } else if m == 5 {
        match e.code {
            KeyCode::Char(ch) => ActionModel::PtyBytes(seq![0x1bu8] + encode_scalar(ch as u32)),
            _ => ActionModel::Ignore,
        }
    } else if m == 1 {
        match e.code {
            KeyCode::Up => ActionModel::Command(AppCommand::Layout(LayoutCommand::ScrollUpLines(1))),
            KeyCode::Down => ActionModel::Command(AppCommand::Layout(LayoutCommand::ScrollDownLines(1))),
            KeyCode::PageUp => ActionModel::Command(AppCommand::Layout(LayoutCommand::ScrollUpPages(1))),
            KeyCode::PageDown => ActionModel::Command(AppCommand::Layout(LayoutCommand::ScrollDownPages(1))),
            KeyCode::Char(ch) => ActionModel::PtyBytes(encode_scalar(ch as u32)),
            _ => ActionModel::Ignore,
        }
    } else if m == 0 && e.code == KeyCode::End {
        ActionModel::Command(AppCommand::Layout(LayoutCommand::ScrollToBottom))
    } else if m != 0 {
        ActionModel::Ignore
    } else {
        plain_key_action(e.code)
    }
}

/// What a key press does: the platform's shortcuts first, in a fixed order,
/// then by the modifiers held.
pub open spec fn key_action(e: KeyEvent, k: Keymap, b: PlatformKeyBindings) -> ActionModel {
    if b.interrupt.spec_matches(e, k.interrupt@) {
        ActionModel::Command(AppCommand::SendInterrupt)
    } else if b.split_vertical.spec_matches(e) {
        ActionModel::Command(AppCommand::Layout(LayoutCommand::SplitFocused(SplitDirection::Vertical)))
    } else if b.split_horizontal.spec_matches(e) {
        ActionModel::Command(AppCommand::Layout(LayoutCommand::SplitFocused(SplitDirection::Horizontal)))
    } else if b.close_pane.spec_matches(e, k.close_pane@) {
        ActionModel::Command(AppCommand::Layout(LayoutCommand::CloseFocusedPane))
    } else if b.new_tab.spec_matches(e, k.new_tab@) {
        ActionModel::Command(AppCommand::Tabs(TabCommand::NewTab))
    } else if b.previous_tab.spec_matches(e, k.previous_tab@) {
        ActionModel::Command(AppCommand::Tabs(TabCommand::PreviousTab))
    } else if b.next_tab.spec_matches(e, k.next_tab@) {
        ActionModel::Command(AppCommand::Tabs(TabCommand::NextTab))
    } else if b.close_tab.spec_matches(e, k.close_tab@) {
        ActionModel::Command(AppCommand::Tabs(TabCommand::CloseCurrentTab))
    } else if b.focus_left.spec_matches(e) {
        ActionModel::Command(AppCommand::Layout(LayoutCommand::MoveFocus(FocusMoveDirection::Left)))
    } else if b.focus_right.spec_matches(e) {
        ActionModel::Command(AppCommand::Layout(LayoutCommand::MoveFocus(FocusMoveDirection::Right)))
    } else if b.focus_up.spec_matches(e) {
        ActionModel::Command(AppCommand::Layout(LayoutCommand::MoveFocus(FocusMoveDirection::Up)))
    } else if b.focus_down.spec_matches(e) {
        ActionModel::Command(AppCommand::Layout(LayoutCommand::MoveFocus(FocusMoveDirection::Down)))
    } else if b.resize_left.spec_matches(e) {
        ActionModel::Command(AppCommand::Layout(LayoutCommand::ResizeFocused(ResizeDirection::Left)))
    } else if b.resize_right.spec_matches(e) {
        ActionModel::Command(AppCommand::Layout(LayoutCommand::ResizeFocused(ResizeDirection::Right)))
    } else if b.resize_up.spec_matches(e) {
        ActionModel::Command(AppCommand::Layout(LayoutCommand::ResizeFocused(ResizeDirection::Up)))
    } else if b.resize_down.spec_matches(e) {
        ActionModel::Command(AppCommand::Layout(LayoutCommand::ResizeFocused(ResizeDirection::Down)))
    } else if b.quit.spec_matches(e, k.quit@) {
        ActionModel::Command(AppCommand::Quit)
    } else {
        fallback_action(e, k, b)
    }
}

/// Whether `code` is a character of `chars`.
fn matches_char(code: KeyCode, chars: &Vec<char>) -> (r: bool)
    ensures
        r == code_in(code, chars@),
{
    match code {
        KeyCode::Char(ch) => contains_char(chars, ch),
        _ => false,
    }
}

/// The control byte `ch` gives with control held, if any.
pub fn ctrl_char_byte(ch: char) -> (r: Option<u8>)
    ensures
        r == ctrl_byte(ch),
{
    let b = ch as u32;
    if b == 0x40 || b == 0x20 {
        Some(0)
    } else if 0x61 <= b && b <= 0x7a {
        Some((b - 0x61 + 1) as u8)
    } else if 0x41 <= b && b <= 0x5a {
        Some((b - 0x41 + 1) as u8)
    } else if b == 0x5b {
        Some(0x1b)
    } else if b == 0x5c {
        Some(0x1c)
    } else if b == 0x5d {
        Some(0x1d)
    } else if b == 0x5e {
        Some(0x1e)
    } else if b == 0x5f {
        Some(0x1f)
    } else {
        None
    }
}

/// Escape, then the character.
pub fn alt_char_bytes(ch: char) -> (r: Vec<u8>)
    ensures
        r@ == seq![0x1bu8] + encode_scalar(ch as u32),
{
    let mut bytes: Vec<u8> = Vec::new();
    bytes.push(0x1b);
    let mut encoded = char_utf8(ch);
    bytes.append(&mut encoded);
    bytes
}

/// The escape sequence of a function key.
pub fn function_key_bytes(number: u8) -> (r: Option<Vec<u8>>)
    ensures
        match r {
            Some(b) => fkey_bytes(number) == Some(b@),
            None => fkey_bytes(number) is None,
        },
{
    let v: Vec<u8> = if number == 1 {
        vec![0x1b, 0x4f, 0x50]
    } else if number == 2 {
        vec![0x1b, 0x4f, 0x51]
    } else if number == 3 {
        vec![0x1b, 0x4f, 0x52]
    } else if number == 4 {
        vec![0x1b, 0x4f, 0x53]
    } else if number == 5 {
        vec![0x1b, 0x5b, 0x31, 0x35, 0x7e]
    } else if number == 6 {
        vec![0x1b, 0x5b, 0x31, 0x37, 0x7e]
    } else if number == 7 {
        vec![0x1b, 0x5b, 0x31, 0x38, 0x7e]
    } else if number == 8 {
        vec![0x1b, 0x5b, 0x31, 0x39, 0x7e]
    } else if number == 9 {
        vec![0x1b, 0x5b, 0x32, 0x30, 0x7e]
    } else if number == 10 {
        vec![0x1b, 0x5b, 0x32, 0x31, 0x7e]
    } else if number == 11 {
        vec![0x1b, 0x5b, 0x32, 0x33, 0x7e]
    } else if number == 12 {
        vec![0x1b, 0x5b, 0x32, 0x34, 0x7e]
    } else {
        return None;
    };
    proof {
        assert(fkey_bytes(number) == Some(v@));
    }
    Some(v)
}

fn command(c: AppCommand) -> (r: InputAction)
    ensures
        r@ == ActionModel::Command(c),
{
    InputAction::Command(c)
}

fn bytes(b: Vec<u8>) -> (r: InputAction)
    ensures
        r@ == ActionModel::PtyBytes(b@),
{
    InputAction::PtyBytes(b)
}

fn fallback(event: KeyEvent, keymap: &Keymap, bindings: &PlatformKeyBindings) -> (r: InputAction)
    ensures
        r@ == fallback_action(event, *keymap, *bindings),
{
    let m = event.modifiers.bits;
    if m == CONTROL_BITS {
        if matches_char(event.code, &keymap.copy) {
            return command(AppCommand::Clipboard(ClipboardCommand::CopySelection));
        }
        if matches_char(event.code, &keymap.paste) {
            return command(AppCommand::Clipboard(ClipboardCommand::PasteFromSystem));
        }
        return match event.code {
            KeyCode::Char(ch) => match ctrl_char_byte(ch) {
                Some(byte) => {
                    let v = vec![byte];
                    proof {
                        assert(v@ =~= seq![byte]);
                    }
                    bytes(v)
                },
                None => InputAction::Ignore,
            },
            _ => InputAction::Ignore,
        };
    }
    if m == ALT_BITS {
        if bindings.interrupt.modifiers.bits == ALT_BITS && matches_char(event.code, &keymap.interrupt) {
            return command(AppCommand::SendInterrupt);
        }
        return match event.code {
            KeyCode::Char(ch) => bytes(alt_char_bytes(ch)),
            _ => InputAction::Ignore,
        };
    }
    if m == ALT_BITS + SHIFT_BITS {
        return match event.code {
            KeyCode::Char(ch) => bytes(alt_char_bytes(ch)),
            _ => InputAction::Ignore,
        };
    }
    if m == SHIFT_BITS {
        return match event.code {
            KeyCode::Up => command(AppCommand::Layout(LayoutCommand::ScrollUpLines(1))),
            KeyCode::Down => command(AppCommand::Layout(LayoutCommand::ScrollDownLines(1))),
            KeyCode::PageUp => command(AppCommand::Layout(LayoutCommand::ScrollUpPages(1))),
            KeyCode::PageDown => command(AppCommand::Layout(LayoutCommand::ScrollDownPages(1))),
            KeyCode::Char(ch) => bytes(char_utf8(ch)),
            _ => InputAction::Ignore,
        };
    }
    if m == 0 && event.code == KeyCode::End {
        return command(AppCommand::Layout(LayoutCommand::ScrollToBottom));
    }
    if m != 0 {
        return InputAction::Ignore;
    }
    match event.code {
        KeyCode::Char(ch) => bytes(char_utf8(ch)),
        KeyCode::Enter => {
            let v: Vec<u8> = vec![0x0d];
            proof {
                assert(v@ =~= seq![0x0du8]);
            }
            bytes(v)
        },
        KeyCode::Backspace => {
            let v: Vec<u8> = vec![0x08];
            proof {
                assert(v@ =~= seq![0x08u8]);
            }
            bytes(v)
        },
        KeyCode::Tab => {
            let v: Vec<u8> = vec![0x09];
            proof {
                assert(v@ =~= seq![0x09u8]);
            }
            bytes(v)
        },
        KeyCode::Esc => {
            let v: Vec<u8> = vec![0x1b];
            proof {
                assert(v@ =~= seq![0x1bu8]);
            }
            bytes(v)
        },
        KeyCode::Left => {
            let v: Vec<u8> = vec![0x1b, 0x5b, 0x44];
            proof {
                assert(v@ =~= seq![0x1bu8, 0x5b, 0x44]);
            }
            bytes(v)
        },
        KeyCode::Right => {
            let v: Vec<u8> = vec![0x1b, 0x5b, 0x43];
            proof {
                assert(v@ =~= seq![0x1bu8, 0x5b, 0x43]);
            }
            bytes(v)
        },
        KeyCode::Up => {
            let v: Vec<u8> = vec![0x1b, 0x5b, 0x41];
            proof {
                assert(v@ =~= seq![0x1bu8, 0x5b, 0x41]);
            }
            bytes(v)
        },
        KeyCode::Down => {
            let v: Vec<u8> = vec![0x1b, 0x5b, 0x42];
            proof {
                assert(v@ =~= seq![0x1bu8, 0x5b, 0x42]);
            }
            bytes(v)
        },
        KeyCode::F(number) => match function_key_bytes(number) {
            Some(b) => bytes(b),
            None => InputAction::Ignore,
        },
        _ => InputAction::Ignore,
    }
}

/// What a key press does under `keymap` with the shortcuts of `profile`.
/// What a key press does with the default keymap, on the platform whose
/// operating system the compiler names `target_os`.
pub fn map_key_event(event: KeyEvent, target_os: &str) -> (r: InputAction)
    ensures
        exists|k: Keymap| is_default_keymap(k) && r@ == key_action(event, k, bindings_of(profile_for_os(target_os@))),
{
    let keymap = Keymap::default();
    map_key_event_with_profile(event, &keymap, current_platform_key_profile(target_os))
}

/// What a key press does with `keymap`, on the platform whose operating
/// system the compiler names `target_os`.
pub fn map_key_event_with_keymap(event: KeyEvent, keymap: &Keymap, target_os: &str) -> (r: InputAction)
    ensures
        r@ == key_action(event, *keymap, bindings_of(profile_for_os(target_os@))),
{
    map_key_event_with_profile(event, keymap, current_platform_key_profile(target_os))
}

pub fn map_key_event_with_profile(event: KeyEvent, keymap: &Keymap, profile: PlatformKeyProfile) -> (r: InputAction)
    ensures
        r@ == key_action(event, *keymap, bindings_of(profile)),
{
    let b = key_bindings_for_profile(profile);
    if b.interrupt.matches(event, &keymap.interrupt) {
        return command(AppCommand::SendInterrupt);
    }
    if b.split_vertical.matches(event) {
        return command(AppCommand::Layout(LayoutCommand::SplitFocused(SplitDirection::Vertical)));
    }
    if b.split_horizontal.matches(event) {
        return command(AppCommand::Layout(LayoutCommand::SplitFocused(SplitDirection::Horizontal)));
    }
    if b.close_pane.matches(event, &keymap.close_pane) {
        return command(AppCommand::Layout(LayoutCommand::CloseFocusedPane));
    }
    if b.new_tab.matches(event, &keymap.new_tab) {
        return command(AppCommand::Tabs(TabCommand::NewTab));
    }
    if b.previous_tab.matches(event, &keymap.previous_tab) {
        return command(AppCommand::Tabs(TabCommand::PreviousTab));
    }
    if b.next_tab.matches(event, &keymap.next_tab) {
        return command(AppCommand::Tabs(TabCommand::NextTab));
    }
    if b.close_tab.matches(event, &keymap.close_tab) {
        return command(AppCommand::Tabs(TabCommand::CloseCurrentTab));
    }
    if b.focus_left.matches(event) {
        return command(AppCommand::Layout(LayoutCommand::MoveFocus(FocusMoveDirection::Left)));
    }
    if b.focus_right.matches(event) {
        return command(AppCommand::Layout(LayoutCommand::MoveFocus(FocusMoveDirection::Right)));
    }
    if b.focus_up.matches(event) {
        return command(AppCommand::Layout(LayoutCommand::MoveFocus(FocusMoveDirection::Up)));
    }
    if b.focus_down.matches(event) {
        return command(AppCommand::Layout(LayoutCommand::MoveFocus(FocusMoveDirection::Down)));
    }
    if b.resize_left.matches(event) {
        return command(AppCommand::Layout(LayoutCommand::ResizeFocused(ResizeDirection::Left)));
    }
    if b.resize_right.matches(event) {
        return command(AppCommand::Layout(LayoutCommand::ResizeFocused(ResizeDirection::Right)));
    }
    if b.resize_up.matches(event) {
        return command(AppCommand::Layout(LayoutCommand::ResizeFocused(ResizeDirection::Up)));
    }
    if b.resize_down.matches(event) {
        return command(AppCommand::Layout(LayoutCommand::ResizeFocused(ResizeDirection::Down)));
    }
    if b.quit.matches(event, &keymap.quit) {
        return command(AppCommand::Quit);
    }
    fallback(event, keymap, &b)
}

/// Where a key goes once no modal box is open and a pending Esc has been
/// resolved.
#[derive(Debug, Clone, PartialEq, Eq)]
pub enum KeyRoute {
    /// Open the rename box of the current tab.
    StartRenameTab,
    /// Open the rename box of the current pane.
    StartRenamePane,
    /// Home or End, pressed alone.
    Navigation(NavigationAction),
    /// What the key maps to.
    Input(InputAction),
}

/// Routes a key: the rename shortcuts come first, then Home and End
/// pressed alone (End scrolls a pane showing history back to its live
/// screen), then the key's mapping under `keymap` and `profile`.
pub fn route_key(event: KeyEvent, keymap: &Keymap, profile: PlatformKeyProfile, scrolled_back: bool) -> (r: KeyRoute)
    ensures
        ({
            let b = bindings_of(profile);
            let rename_tab = b.rename_tab.spec_matches(event, keymap.rename_tab@);
            let rename_pane = b.rename_pane.spec_matches(event, keymap.rename_pane@);
            let nav = event.modifiers.bits == 0 && (event.code == KeyCode::Home || event.code == KeyCode::End);
            &&& rename_tab ==> r == KeyRoute::StartRenameTab
            &&& !rename_tab && rename_pane ==> r == KeyRoute::StartRenamePane
            &&& !rename_tab && !rename_pane && nav ==> (r matches KeyRoute::Navigation(a) && match a {
                NavigationAction::ScrollToBottom => event.code == KeyCode::End && scrolled_back,
                NavigationAction::Write(bytes) => if event.code == KeyCode::Home {
                    bytes@ == seq![0x1bu8, 0x5bu8, 0x48u8]
                } else {
                    !scrolled_back && bytes@ == seq![0x1bu8, 0x5bu8, 0x46u8]
                },
            })
            &&& !rename_tab && !rename_pane && !nav ==> (r matches KeyRoute::Input(a) && a@ == key_action(event, *keymap, b))
        }),
{
    if is_start_rename_tab_event(event, keymap, profile) {
        return KeyRoute::StartRenameTab;
    }
    if is_start_rename_pane_event(event, keymap, profile) {
        return KeyRoute::StartRenamePane;
    }
    match navigation_action(event, scrolled_back) {
        Some(a) => KeyRoute::Navigation(a),
        None => KeyRoute::Input(map_key_event_with_profile(event, keymap, profile)),
    }
}


/// A character has a C0 control code: space, `@` to `_` (the capital
/// letters among them), and the small letters.
pub open spec fn has_c0_code(ch: char) -> bool {
    let b = ch as u32;
    b == 0x20 || (0x40 <= b <= 0x5f) || (0x61 <= b <= 0x7a)
}

/// With Control held, a character that has a C0 control code gives that
/// code: the character's code modulo 32 (so space and `@` give 0, a letter
/// its place in the alphabet, `[` to `_` give 27 to 31); any other gives
/// none.
pub proof fn law_control_gives_c0_code(ch: char)
    ensures
        ctrl_byte(ch) == (if has_c0_code(ch) {
            Some(((ch as u32) % 32) as u8)
        } else {
            None
        }),
{
}

/// On Linux and the other Alt-based platforms, a character typed with
/// Control alone that is not one of the keymap's copy or paste characters
/// reaches the shell as its C0 control code when it has one, and is
/// ignored otherwise; no shortcut takes it.
pub proof fn law_control_characters_reach_the_shell(ch: char, k: Keymap)
    requires
        !k.copy@.contains(ch),
        !k.paste@.contains(ch),
    ensures
        key_action(KeyEvent { code: KeyCode::Char(ch), modifiers: KeyModifiers { bits: CONTROL_BITS } }, k, linux_bindings())
            == (if has_c0_code(ch) {
            ActionModel::PtyBytes(seq![((ch as u32) % 32) as u8])
        } else {
            ActionModel::Ignore
        }),
{
    law_control_gives_c0_code(ch);
}

} // verus!
