//! The shortcuts of each platform.

use vstd::prelude::*;

use crate::keys::{KeyCode, KeyEvent, KeyModifiers, ALT_BITS, CONTROL_BITS, SHIFT_BITS};
use crate::text::str_eq;

verus! {

/// A family of platforms that share shortcuts.
#[derive(Debug, Clone, Copy, PartialEq, Eq, Structural)]
pub enum PlatformKeyProfile {
    Linux,
    MacOs,
    Windows,
    Other,
}

/// The key of a fixed shortcut.
#[derive(Debug, Clone, Copy, PartialEq, Eq, Structural)]
pub enum ShortcutKey {
    Char(char),
    Left,
    Right,
    Up,
    Down,
    F(u8),
}

/// A fixed key with fixed modifiers, and how help shows it.
#[derive(Debug, Clone, Copy, PartialEq, Eq)]
pub struct Shortcut {
    pub modifiers: KeyModifiers,
    pub key: ShortcutKey,
    pub label: &'static str,
}

/// The key `code` is the shortcut key `key`.
pub open spec fn key_is(key: ShortcutKey, code: KeyCode) -> bool {
    match (key, code) {
        (ShortcutKey::Char(expected), KeyCode::Char(actual)) => expected == actual,
        (ShortcutKey::Left, KeyCode::Left) => true,
        (ShortcutKey::Right, KeyCode::Right) => true,
        (ShortcutKey::Up, KeyCode::Up) => true,
        (ShortcutKey::Down, KeyCode::Down) => true,
        (ShortcutKey::F(expected), KeyCode::F(actual)) => expected == actual,
        _ => false,
    }
}

impl Shortcut {
    /// The event is this shortcut: the same modifiers, exactly, and its key.
    pub open spec fn spec_matches(&self, event: KeyEvent) -> bool {
        event.modifiers == self.modifiers && key_is(self.key, event.code)
    }

    pub fn matches(&self, event: KeyEvent) -> (r: bool)
        ensures
            r == self.spec_matches(event),
    {
        event.modifiers == self.modifiers && match (self.key, event.code) {
            (ShortcutKey::Char(expected), KeyCode::Char(actual)) => expected == actual,
            (ShortcutKey::Left, KeyCode::Left) => true,
            (ShortcutKey::Right, KeyCode::Right) => true,
            (ShortcutKey::Up, KeyCode::Up) => true,
            (ShortcutKey::Down, KeyCode::Down) => true,
            (ShortcutKey::F(expected), KeyCode::F(actual)) => expected == actual,
            _ => false,
        }
    }
}

/// Modifiers held with a character key; the characters come from the keymap
/// unless the binding fixes one.
#[derive(Debug, Clone, Copy, PartialEq, Eq)]
pub struct ModifiedCharBinding {
    pub modifiers: KeyModifiers,
    pub label: &'static str,
    pub chars: Option<char>,
}

impl ModifiedCharBinding {
    /// The event is this binding: the same modifiers, exactly, and a
    /// character that the binding fixes or, when it fixes none, one of
    /// `accepted`.
    pub open spec fn spec_matches(&self, event: KeyEvent, accepted: Seq<char>) -> bool {
        event.modifiers == self.modifiers && match event.code {
            KeyCode::Char(ch) => match self.chars {
                Some(fixed) => ch == fixed,
                None => accepted.contains(ch),
            },
            _ => false,
        }
    }

    pub fn matches(&self, event: KeyEvent, accepted: &Vec<char>) -> (r: bool)
        ensures
            r == self.spec_matches(event, accepted@),
    {
        if event.modifiers != self.modifiers {
            return false;
        }
        match event.code {
            KeyCode::Char(ch) => match self.chars {
                Some(fixed) => ch == fixed,
                None => contains_char(accepted, ch),
            },
            _ => false,
        }
    }
}

/// Whether `ch` occurs in `chars`.
pub fn contains_char(chars: &Vec<char>, ch: char) -> (r: bool)
    ensures
        r == chars@.contains(ch),
{
    let mut i: usize = 0;
    while i < chars.len()
        invariant
            0 <= i <= chars@.len(),
            forall|j: int| 0 <= j < i ==> chars@[j] != ch,
        decreases chars@.len() - i,
    {
        if chars[i] == ch {
            proof {
                assert(chars@[i as int] == ch);
            }
            return true;
        }
        i = i + 1;
    }
    false
}

/// The shortcuts of a platform.
#[derive(Debug, Clone, Copy, PartialEq, Eq)]
pub struct PlatformKeyBindings {
    pub interrupt: ModifiedCharBinding,
    pub close_pane: ModifiedCharBinding,
    pub new_tab: ModifiedCharBinding,
    pub previous_tab: ModifiedCharBinding,
    pub next_tab: ModifiedCharBinding,
    pub close_tab: ModifiedCharBinding,
    pub rename_tab: ModifiedCharBinding,
    pub rename_pane: ModifiedCharBinding,
    pub quit: ModifiedCharBinding,
    pub split_vertical: Shortcut,
    pub split_horizontal: Shortcut,
    pub open_help: Shortcut,
    pub focus_left: Shortcut,
    pub focus_right: Shortcut,
    pub focus_up: Shortcut,
    pub focus_down: Shortcut,
    pub resize_left: Shortcut,
    pub resize_right: Shortcut,
    pub resize_up: Shortcut,
    pub resize_down: Shortcut,
}

/// Modifiers with the given bits.
pub open spec fn mods(bits: u8) -> KeyModifiers {
    KeyModifiers { bits }
}

/// The shortcuts used on Linux, Windows and other platforms: alt based.
pub open spec fn linux_bindings() -> PlatformKeyBindings {
    PlatformKeyBindings {
        interrupt: ModifiedCharBinding { modifiers: mods(4), label: "Alt+X", chars: None },
        close_pane: ModifiedCharBinding { modifiers: mods(4), label: "Alt+Q", chars: None },
        new_tab: ModifiedCharBinding { modifiers: mods(4), label: "Alt+T", chars: None },
        previous_tab: ModifiedCharBinding { modifiers: mods(4), label: "Alt+,", chars: None },
        next_tab: ModifiedCharBinding { modifiers: mods(4), label: "Alt+.", chars: None },
        close_tab: ModifiedCharBinding { modifiers: mods(4), label: "Alt+W", chars: None },
        rename_tab: ModifiedCharBinding { modifiers: mods(5), label: "Alt+Shift+R", chars: None },
        rename_pane: ModifiedCharBinding { modifiers: mods(5), label: "Alt+Shift+E", chars: None },
        quit: ModifiedCharBinding { modifiers: mods(5), label: "Alt+Shift+Q", chars: None },
        split_vertical: Shortcut { modifiers: mods(4), key: ShortcutKey::Char('-'), label: "Alt+-" },
        split_horizontal: Shortcut { modifiers: mods(4), key: ShortcutKey::Char('='), label: "Alt+=" },
        open_help: Shortcut { modifiers: mods(1), key: ShortcutKey::F(1), label: "Shift+F1" },
        focus_left: Shortcut { modifiers: mods(4), key: ShortcutKey::Left, label: "Alt+Left" },
        focus_right: Shortcut { modifiers: mods(4), key: ShortcutKey::Right, label: "Alt+Right" },
        focus_up: Shortcut { modifiers: mods(4), key: ShortcutKey::Up, label: "Alt+Up" },
        focus_down: Shortcut { modifiers: mods(4), key: ShortcutKey::Down, label: "Alt+Down" },
        resize_left: Shortcut { modifiers: mods(5), key: ShortcutKey::Left, label: "Alt+Shift+Left" },
        resize_right: Shortcut { modifiers: mods(5), key: ShortcutKey::Right, label: "Alt+Shift+Right" },
        resize_up: Shortcut { modifiers: mods(5), key: ShortcutKey::Up, label: "Alt+Shift+Up" },
        resize_down: Shortcut { modifiers: mods(5), key: ShortcutKey::Down, label: "Alt+Shift+Down" },
    }
}

/// The shortcuts used on macOS: control based, on letters that terminals
/// pass through.
pub open spec fn macos_bindings() -> PlatformKeyBindings {
    PlatformKeyBindings {
        interrupt: ModifiedCharBinding { modifiers: mods(2), label: "Ctrl+X", chars: None },
        close_pane: ModifiedCharBinding { modifiers: mods(2), label: "Ctrl+Q", chars: None },
        new_tab: ModifiedCharBinding { modifiers: mods(2), label: "Ctrl+T", chars: None },
        previous_tab: ModifiedCharBinding { modifiers: mods(2), label: "Ctrl+,", chars: None },
        next_tab: ModifiedCharBinding { modifiers: mods(2), label: "Ctrl+.", chars: None },
        close_tab: ModifiedCharBinding { modifiers: mods(2), label: "Ctrl+W", chars: None },
        rename_tab: ModifiedCharBinding { modifiers: mods(3), label: "Ctrl+Shift+R", chars: None },
        rename_pane: ModifiedCharBinding { modifiers: mods(3), label: "Ctrl+Shift+E", chars: None },
        quit: ModifiedCharBinding { modifiers: mods(3), label: "Ctrl+Shift+X", chars: Some('X') },
        split_vertical: Shortcut { modifiers: mods(2), key: ShortcutKey::Char('s'), label: "Ctrl+S" },
        split_horizontal: Shortcut { modifiers: mods(3), key: ShortcutKey::Char('S'), label: "Ctrl+Shift+S" },
        open_help: Shortcut { modifiers: mods(2), key: ShortcutKey::Char('g'), label: "Ctrl+G" },
        focus_left: Shortcut { modifiers: mods(2), key: ShortcutKey::Char('b'), label: "Ctrl+B" },
        focus_right: Shortcut { modifiers: mods(2), key: ShortcutKey::Char('f'), label: "Ctrl+F" },
        focus_up: Shortcut { modifiers: mods(2), key: ShortcutKey::Char('p'), label: "Ctrl+P" },
        focus_down: Shortcut { modifiers: mods(2), key: ShortcutKey::Char('n'), label: "Ctrl+N" },
        resize_left: Shortcut { modifiers: mods(3), key: ShortcutKey::Char('B'), label: "Ctrl+Shift+B" },
        resize_right: Shortcut { modifiers: mods(3), key: ShortcutKey::Char('F'), label: "Ctrl+Shift+F" },
        resize_up: Shortcut { modifiers: mods(3), key: ShortcutKey::Char('P'), label: "Ctrl+Shift+P" },
        resize_down: Shortcut { modifiers: mods(3), key: ShortcutKey::Char('N'), label: "Ctrl+Shift+N" },
    }
}

/// The shortcuts of a profile: macOS has its own, every other platform
/// uses the Linux ones.
pub open spec fn bindings_of(profile: PlatformKeyProfile) -> PlatformKeyBindings {
    match profile {
        PlatformKeyProfile::MacOs => macos_bindings(),
        _ => linux_bindings(),
    }
}

fn char_binding(bits: u8, label: &'static str) -> (b: ModifiedCharBinding)
    ensures
        b == (ModifiedCharBinding { modifiers: mods(bits), label, chars: None }),
{
    ModifiedCharBinding { modifiers: KeyModifiers { bits }, label, chars: None }
}

fn shortcut(bits: u8, key: ShortcutKey, label: &'static str) -> (s: Shortcut)
    ensures
        s == (Shortcut { modifiers: mods(bits), key, label }),
{
    Shortcut { modifiers: KeyModifiers { bits }, key, label }
}

/// The shortcuts of `profile`.
pub fn key_bindings_for_profile(profile: PlatformKeyProfile) -> (b: PlatformKeyBindings)
    ensures
        b == bindings_of(profile),
{
    let alt = ALT_BITS;
    let alt_shift = ALT_BITS | SHIFT_BITS;
    let ctrl = CONTROL_BITS;
    let ctrl_shift = CONTROL_BITS | SHIFT_BITS;
    assert(ALT_BITS | SHIFT_BITS == 5u8) by (bit_vector);
    assert(CONTROL_BITS | SHIFT_BITS == 3u8) by (bit_vector);
    match profile {
        PlatformKeyProfile::MacOs => PlatformKeyBindings {
            interrupt: char_binding(ctrl, "Ctrl+X"),
            close_pane: char_binding(ctrl, "Ctrl+Q"),
            new_tab: char_binding(ctrl, "Ctrl+T"),
            previous_tab: char_binding(ctrl, "Ctrl+,"),
            next_tab: char_binding(ctrl, "Ctrl+."),
            close_tab: char_binding(ctrl, "Ctrl+W"),
            rename_tab: char_binding(ctrl_shift, "Ctrl+Shift+R"),
            rename_pane: char_binding(ctrl_shift, "Ctrl+Shift+E"),
            quit: ModifiedCharBinding { modifiers: KeyModifiers { bits: ctrl_shift }, label: "Ctrl+Shift+X", chars: Some('X') },
            split_vertical: shortcut(ctrl, ShortcutKey::Char('s'), "Ctrl+S"),
            split_horizontal: shortcut(ctrl_shift, ShortcutKey::Char('S'), "Ctrl+Shift+S"),
            open_help: shortcut(ctrl, ShortcutKey::Char('g'), "Ctrl+G"),
            focus_left: shortcut(ctrl, ShortcutKey::Char('b'), "Ctrl+B"),
            focus_right: shortcut(ctrl, ShortcutKey::Char('f'), "Ctrl+F"),
            focus_up: shortcut(ctrl, ShortcutKey::Char('p'), "Ctrl+P"),
            focus_down: shortcut(ctrl, ShortcutKey::Char('n'), "Ctrl+N"),
            resize_left: shortcut(ctrl_shift, ShortcutKey::Char('B'), "Ctrl+Shift+B"),
            resize_right: shortcut(ctrl_shift, ShortcutKey::Char('F'), "Ctrl+Shift+F"),
            resize_up: shortcut(ctrl_shift, ShortcutKey::Char('P'), "Ctrl+Shift+P"),
            resize_down: shortcut(ctrl_shift, ShortcutKey::Char('N'), "Ctrl+Shift+N"),
        },
        _ => PlatformKeyBindings {
            interrupt: char_binding(alt, "Alt+X"),
            close_pane: char_binding(alt, "Alt+Q"),
            new_tab: char_binding(alt, "Alt+T"),
            previous_tab: char_binding(alt, "Alt+,"),
            next_tab: char_binding(alt, "Alt+."),
            close_tab: char_binding(alt, "Alt+W"),
            rename_tab: char_binding(alt_shift, "Alt+Shift+R"),
            rename_pane: char_binding(alt_shift, "Alt+Shift+E"),
            quit: char_binding(alt_shift, "Alt+Shift+Q"),
            split_vertical: shortcut(alt, ShortcutKey::Char('-'), "Alt+-"),
            split_horizontal: shortcut(alt, ShortcutKey::Char('='), "Alt+="),
            open_help: shortcut(SHIFT_BITS, ShortcutKey::F(1), "Shift+F1"),
            focus_left: shortcut(alt, ShortcutKey::Left, "Alt+Left"),
            focus_right: shortcut(alt, ShortcutKey::Right, "Alt+Right"),
            focus_up: shortcut(alt, ShortcutKey::Up, "Alt+Up"),
            focus_down: shortcut(alt, ShortcutKey::Down, "Alt+Down"),
            resize_left: shortcut(alt_shift, ShortcutKey::Left, "Alt+Shift+Left"),
            resize_right: shortcut(alt_shift, ShortcutKey::Right, "Alt+Shift+Right"),
            resize_up: shortcut(alt_shift, ShortcutKey::Up, "Alt+Shift+Up"),
            resize_down: shortcut(alt_shift, ShortcutKey::Down, "Alt+Shift+Down"),
        },
    }
}

/// The profile of the operating system named `os`, by the name the compiler
/// gives it.
pub open spec fn profile_for_os(os: Seq<char>) -> PlatformKeyProfile {
    if os == "linux"@ {
        PlatformKeyProfile::Linux
    } else if os == "macos"@ {
        PlatformKeyProfile::MacOs
    } else if os == "windows"@ {
        PlatformKeyProfile::Windows
    } else {
        PlatformKeyProfile::Other
    }
}

/// The profile of a platform, by the name the compiler gives its operating
/// system.
pub fn current_platform_key_profile(target_os: &str) -> (p: PlatformKeyProfile)
    ensures
        p == profile_for_os(target_os@),
{
    if str_eq(target_os, "linux") {
        PlatformKeyProfile::Linux
    } else if str_eq(target_os, "macos") {
        PlatformKeyProfile::MacOs
    } else if str_eq(target_os, "windows") {
        PlatformKeyProfile::Windows
    } else {
        PlatformKeyProfile::Other
    }
}

/// The bindings of the platform whose operating system the compiler names
/// `target_os`.
pub fn current_platform_key_bindings(target_os: &str) -> (b: PlatformKeyBindings)
    ensures
        b == bindings_of(profile_for_os(target_os@)),
{
    key_bindings_for_profile(current_platform_key_profile(target_os))
}

/// What makes two bindings the same key press: a binding of keymap
/// characters is told apart by its label, one of a fixed character by that
/// character, a shortcut by its key.
pub enum Signature {
    CharLabel(u8, Seq<char>),
    Chars(u8, char),
    Key(u8, ShortcutKey),
}

pub open spec fn char_signature(b: ModifiedCharBinding) -> Signature {
    match b.chars {
        Some(c) => Signature::Chars(b.modifiers.bits, c),
        None => Signature::CharLabel(b.modifiers.bits, b.label@),
    }
}

pub open spec fn shortcut_signature(s: Shortcut) -> Signature {
    Signature::Key(s.modifiers.bits, s.key)
}

/// The signatures of all the bindings of a profile.
pub open spec fn signatures(b: PlatformKeyBindings) -> Seq<Signature> {
    seq![
        char_signature(b.interrupt),
        char_signature(b.close_pane),
        char_signature(b.new_tab),
        char_signature(b.previous_tab),
        char_signature(b.next_tab),
        char_signature(b.close_tab),
        char_signature(b.rename_tab),
        char_signature(b.rename_pane),
        char_signature(b.quit),
        shortcut_signature(b.split_vertical),
        shortcut_signature(b.split_horizontal),
        shortcut_signature(b.open_help),
        shortcut_signature(b.focus_left),
        shortcut_signature(b.focus_right),
        shortcut_signature(b.focus_up),
        shortcut_signature(b.focus_down),
        shortcut_signature(b.resize_left),
        shortcut_signature(b.resize_right),
        shortcut_signature(b.resize_up),
        shortcut_signature(b.resize_down),
    ]
}

/// No two bindings of the Linux profile are the same key press.
pub proof fn law_linux_bindings_distinct()
    ensures
        signatures(bindings_of(PlatformKeyProfile::Linux)).no_duplicates(),
{
    reveal_strlit("Alt+X");
    reveal_strlit("Alt+Q");
    reveal_strlit("Alt+T");
    reveal_strlit("Alt+,");
    reveal_strlit("Alt+.");
    reveal_strlit("Alt+W");
    reveal_strlit("Alt+Shift+R");
    reveal_strlit("Alt+Shift+E");
    reveal_strlit("Alt+Shift+Q");
    let s = signatures(bindings_of(PlatformKeyProfile::Linux));
    assert forall|i: int, j: int| 0 <= i < s.len() && 0 <= j < s.len() && i != j implies s[i] != s[j] by {
        if i < 9 && j < 9 {
            assert(s[i]->CharLabel_1[s[i]->CharLabel_1.len() - 1] != s[j]->CharLabel_1[s[j]->CharLabel_1.len() - 1] || s[i]->CharLabel_0 != s[j]->CharLabel_0);
        }
    }
}

/// No two bindings of the macOS profile are the same key press.
pub proof fn law_macos_bindings_distinct()
    ensures
        signatures(bindings_of(PlatformKeyProfile::MacOs)).no_duplicates(),
{
    reveal_strlit("Ctrl+X");
    reveal_strlit("Ctrl+Q");
    reveal_strlit("Ctrl+T");
    reveal_strlit("Ctrl+,");
    reveal_strlit("Ctrl+.");
    reveal_strlit("Ctrl+W");
    reveal_strlit("Ctrl+Shift+R");
    reveal_strlit("Ctrl+Shift+E");
    let s = signatures(bindings_of(PlatformKeyProfile::MacOs));
    assert forall|i: int, j: int| 0 <= i < s.len() && 0 <= j < s.len() && i != j implies s[i] != s[j] by {
        if i < 8 && j < 8 {
            assert(s[i]->CharLabel_1[s[i]->CharLabel_1.len() - 1] != s[j]->CharLabel_1[s[j]->CharLabel_1.len() - 1] || s[i]->CharLabel_0 != s[j]->CharLabel_0);
        }
    }
}

} // verus!
