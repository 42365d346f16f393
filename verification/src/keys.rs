//! Keyboard events as the library sees them: a key and the modifiers held.

use vstd::prelude::*;

verus! {

/// Bit of the shift modifier.
pub const SHIFT_BITS: u8 = 1;

/// Bit of the control modifier.
pub const CONTROL_BITS: u8 = 2;

/// Bit of the alt modifier.
pub const ALT_BITS: u8 = 4;

/// The set of modifiers held with a key, one bit each: shift, control,
/// alt, super, hyper, meta.
#[derive(Debug, Clone, Copy, PartialEq, Eq, Structural)]
pub struct KeyModifiers {
    pub bits: u8,
}

impl KeyModifiers {
    /// No modifier.
    pub fn none() -> (m: KeyModifiers)
        ensures
            m.bits == 0,
    {
        KeyModifiers { bits: 0 }
    }

    /// Shift alone.
    pub fn shift() -> (m: KeyModifiers)
        ensures
            m.bits == SHIFT_BITS,
    {
        KeyModifiers { bits: SHIFT_BITS }
    }

    /// Control alone.
    pub fn control() -> (m: KeyModifiers)
        ensures
            m.bits == CONTROL_BITS,
    {
        KeyModifiers { bits: CONTROL_BITS }
    }

    /// Alt alone.
    pub fn alt() -> (m: KeyModifiers)
        ensures
            m.bits == ALT_BITS,
    {
        KeyModifiers { bits: ALT_BITS }
    }

    /// Whether no modifier is held.
    pub fn is_empty(&self) -> (r: bool)
        ensures
            r == (self.bits == 0),
    {
        self.bits == 0
    }
}

/// A key of the keyboard.
#[derive(Debug, Clone, Copy, PartialEq, Eq, Structural)]
pub enum KeyCode {
    Backspace,
    Enter,
    Left,
    Right,
    Up,
    Down,
    Home,
    End,
    PageUp,
    PageDown,
    Tab,
    BackTab,
    Delete,
    Insert,
    F(u8),
    Char(char),
    Null,
    Esc,
    Other,
}

/// A key pressed with some modifiers.
#[derive(Debug, Clone, Copy, PartialEq, Eq, Structural)]
pub struct KeyEvent {
    pub code: KeyCode,
    pub modifiers: KeyModifiers,
}

impl KeyEvent {
    pub fn new(code: KeyCode, modifiers: KeyModifiers) -> (e: KeyEvent)
        ensures
            e.code == code,
            e.modifiers == modifiers,
    {
        KeyEvent { code, modifiers }
    }
}


/// A key that an Esc just before it makes an Alt chord: a character or an
/// arrow.
pub open spec fn alt_prefixable(code: KeyCode) -> bool {
    code is Char || code is Left || code is Right || code is Up || code is Down
}

/// The event an Esc pressed just before `event` turns it into: the same key
/// with Alt added, for a character or an arrow pressed alone or with
/// Shift; none otherwise.
pub fn synthesize_alt_prefixed_key_event(event: KeyEvent) -> (r: Option<KeyEvent>)
    ensures
        r == (if (event.modifiers.bits == 0 || event.modifiers.bits == SHIFT_BITS) && alt_prefixable(event.code) {
            Some(KeyEvent { code: event.code, modifiers: KeyModifiers { bits: (event.modifiers.bits + ALT_BITS) as u8 } })
        } else {
            None
        }),
{
    let bits: u8 = if event.modifiers.bits == 0 {
        ALT_BITS
    } else if event.modifiers.bits == SHIFT_BITS {
        ALT_BITS + SHIFT_BITS
    } else {
        return None;
    };
    match event.code {
        KeyCode::Char(_) | KeyCode::Left | KeyCode::Right | KeyCode::Up | KeyCode::Down => Some(
            KeyEvent { code: event.code, modifiers: KeyModifiers { bits } },
        ),
        _ => None,
    }
}

/// What one key event does while an Esc may be waiting to become an Alt
/// prefix: whether the waiting Esc is to be sent to the shell, the event
/// to handle, and whether an Esc is waiting afterwards.
#[derive(Debug, Clone, Copy, PartialEq, Eq, Structural)]
pub struct AltPrefixStep {
    pub flush_escape: bool,
    pub event: Option<KeyEvent>,
    pub pending: bool,
}

/// The step for `event`, with an Esc waiting (`pending`) that came no
/// longer ago than the prefix timeout (`within_timeout`): a waiting Esc
/// followed in time by a character or an arrow makes an Alt chord;
/// otherwise it goes to the shell first. A bare Esc waits.
pub fn resolve_alt_prefixed_key_event(pending: bool, within_timeout: bool, event: KeyEvent) -> (r: AltPrefixStep)
    ensures
        ({
            let chord = (event.modifiers.bits == 0 || event.modifiers.bits == SHIFT_BITS) && alt_prefixable(event.code);
            if pending && within_timeout && chord {
                r == (AltPrefixStep {
                    flush_escape: false,
                    event: Some(KeyEvent { code: event.code, modifiers: KeyModifiers { bits: (event.modifiers.bits + ALT_BITS) as u8 } }),
                    pending: false,
                })
            } else if event.modifiers.bits == 0 && event.code == KeyCode::Esc {
                r == (AltPrefixStep { flush_escape: pending, event: None, pending: true })
            } else {
                r == (AltPrefixStep { flush_escape: pending, event: Some(event), pending: false })
            }
        }),
{
    if pending && within_timeout {
        if let Some(synthetic) = synthesize_alt_prefixed_key_event(event) {
            return AltPrefixStep { flush_escape: false, event: Some(synthetic), pending: false };
        }
    }
    if event.modifiers.bits == 0 && event.code == KeyCode::Esc {
        return AltPrefixStep { flush_escape: pending, event: None, pending: true };
    }
    AltPrefixStep { flush_escape: pending, event: Some(event), pending: false }
}

/// What Home and End, pressed alone, do in a pane.
#[derive(Debug, Clone, PartialEq, Eq)]
pub enum NavigationAction {
    Write(Vec<u8>),
    ScrollToBottom,
}

/// What a key does as a navigation key: Home moves the shell's cursor to
/// the start of the line; End scrolls a pane that shows history back to
/// its live screen, or else moves the cursor to the end of the line. Other
/// keys, and keys with modifiers, are not navigation keys.
pub fn navigation_action(event: KeyEvent, scrolled_back: bool) -> (r: Option<NavigationAction>)
    ensures
        event.modifiers.bits != 0 ==> r is None,
        event.modifiers.bits == 0 && event.code == KeyCode::Home ==> (r matches Some(NavigationAction::Write(b)) && b@ == seq![0x1bu8, 0x5bu8, 0x48u8]),
        event.modifiers.bits == 0 && event.code == KeyCode::End && scrolled_back ==> r == Some(NavigationAction::ScrollToBottom),
        event.modifiers.bits == 0 && event.code == KeyCode::End && !scrolled_back ==> (r matches Some(NavigationAction::Write(b)) && b@ == seq![0x1bu8, 0x5bu8, 0x46u8]),
        event.modifiers.bits == 0 && event.code != KeyCode::Home && event.code != KeyCode::End ==> r is None,
{
    if event.modifiers.bits != 0 {
        return None;
    }
    match event.code {
        KeyCode::Home => Some(NavigationAction::Write(vec![0x1b, 0x5b, 0x48])),
        KeyCode::End => if scrolled_back {
            Some(NavigationAction::ScrollToBottom)
        } else {
            Some(NavigationAction::Write(vec![0x1b, 0x5b, 0x46]))
        },
        _ => None,
    }
}

} // verus!
