//! Renaming a tab or a pane: the line editor of the rename box and the
//! title that results.

use vstd::prelude::*;

use crate::base::{PaneId, TabId};
use crate::keymap::Keymap;
use crate::keys::{KeyCode, KeyEvent, CONTROL_BITS};
use crate::platform_keys::{bindings_of, key_bindings_for_profile, PlatformKeyProfile};
use crate::tabs::{pane_location, TabManager};
use crate::text::{chars_of, concat, decimal_text, owned, string_of, trim, trimmed_text, u64_text};

verus! {

broadcast use vstd::std_specs::vec::group_vec_axioms;

/// What is being renamed.
#[derive(Debug, Clone, Copy, PartialEq, Eq, Structural)]
pub enum RenameTarget {
    Tab(TabId),
    Pane(PaneId),
}

/// The rename box: its target, the text typed and the cursor, counted in
/// characters.
#[derive(Debug, Clone, PartialEq, Eq)]
pub struct RenameState {
    pub target: RenameTarget,
    pub input: String,
    pub cursor: usize,
}

/// Whether the event starts renaming the current tab under `profile`.
pub fn is_start_rename_tab_event(event: KeyEvent, keymap: &Keymap, profile: PlatformKeyProfile) -> (r: bool)
    ensures
        r == bindings_of(profile).rename_tab.spec_matches(event, keymap.rename_tab@),
{
    key_bindings_for_profile(profile).rename_tab.matches(event, &keymap.rename_tab)
}

/// Whether the event starts renaming the current pane under `profile`.
pub fn is_start_rename_pane_event(event: KeyEvent, keymap: &Keymap, profile: PlatformKeyProfile) -> (r: bool)
    ensures
        r == bindings_of(profile).rename_pane.spec_matches(event, keymap.rename_pane@),
{
    key_bindings_for_profile(profile).rename_pane.matches(event, &keymap.rename_pane)
}

/// The text without its character at `index`, if it has one.
pub fn remove_char_at(input: &str, index: usize) -> (r: String)
    ensures
        r@ == (if index < input@.len() {
            input@.remove(index as int)
        } else {
            input@
        }),
{
    let cs = chars_of(input);
    let mut out: Vec<char> = Vec::new();
    let mut i: usize = 0;
    while i < cs.len()
        invariant
            0 <= i <= cs@.len(),
            cs@ == input@,
            out@ == (if index < i {
                input@.take(i as int).remove(index as int)
            } else {
                input@.take(i as int)
            }),
        decreases cs@.len() - i,
    {
        if i != index {
            out.push(cs[i]);
        }
        proof {
            if index < i {
                assert(out@ =~= input@.take(i + 1).remove(index as int));
            } else if index == i {
                assert(out@ =~= input@.take(i + 1).remove(index as int));
            } else {
                assert(out@ =~= input@.take(i + 1));
            }
        }
        i = i + 1;
    }
    proof {
        assert(input@.take(i as int) =~= input@);
    }
    string_of(&out)
}

/// The text with `ch` put in at `index`, or at the end when the text is
/// shorter.
pub fn insert_char_at(input: &str, index: usize, ch: char) -> (r: String)
    ensures
        r@ == (if index < input@.len() {
            input@.insert(index as int, ch)
        } else {
            input@.push(ch)
        }),
{
    let cs = chars_of(input);
    let mut out: Vec<char> = Vec::new();
    let mut inserted = false;
    let mut i: usize = 0;
    while i < cs.len()
        invariant
            0 <= i <= cs@.len(),
            cs@ == input@,
            inserted <==> index < i,
            out@ == (if index < i {
                input@.take(i as int).insert(index as int, ch)
            } else {
                input@.take(i as int)
            }),
        decreases cs@.len() - i,
    {
        if i == index {
            out.push(ch);
            inserted = true;
        }
        out.push(cs[i]);
        proof {
            assert(out@ =~= (if index < i + 1 {
                input@.take(i + 1).insert(index as int, ch)
            } else {
                input@.take(i + 1)
            }));
        }
        i = i + 1;
    }
    if !inserted {
        out.push(ch);
    }
    proof {
        assert(input@.take(i as int) =~= input@);
    }
    string_of(&out)
}

/// The default title of a tab: `Tab ` and its number counted from one.
pub open spec fn default_tab_title(tab_id: TabId) -> Seq<char> {
    "Tab "@ + decimal_text((tab_id@ + 1) as nat)
}

/// The default title of a pane: `pane-` and its number.
pub open spec fn default_pane_title(pane_id: PaneId) -> Seq<char> {
    "pane-"@ + decimal_text(pane_id@ as nat)
}

/// The default title of a tab.
pub fn default_tab_title_for(tab_id: TabId) -> (s: String)
    requires
        tab_id@ < u64::MAX,
    ensures
        s@ == default_tab_title(tab_id),
{
    let n = u64_text(tab_id.get() + 1);
    concat("Tab ", n.as_str())
}

/// The default title of a pane.
pub fn default_pane_title_for(pane_id: PaneId) -> (s: String)
    ensures
        s@ == default_pane_title(pane_id),
{
    let n = u64_text(pane_id.get());
    concat("pane-", n.as_str())
}

/// The title typed for a tab, without white space at the ends; the
/// default title when nothing is left.
pub fn normalized_tab_title(tab_id: TabId, input: &str) -> (s: String)
    requires
        tab_id@ < u64::MAX,
    ensures
        s@ == (if trimmed_text(input@).len() == 0 {
            default_tab_title(tab_id)
        } else {
            trimmed_text(input@)
        }),
{
    let t = trim(input);
    if t.as_str().unicode_len() == 0 {
        default_tab_title_for(tab_id)
    } else {
        t
    }
}

/// The title typed for a pane, without white space at the ends; the
/// default title when nothing is left.
pub fn normalized_pane_title(pane_id: PaneId, input: &str) -> (s: String)
    ensures
        s@ == (if trimmed_text(input@).len() == 0 {
            default_pane_title(pane_id)
        } else {
            trimmed_text(input@)
        }),
{
    let t = trim(input);
    if t.as_str().unicode_len() == 0 {
        default_pane_title_for(pane_id)
    } else {
        t
    }
}

/// What a key does in the rename box.
#[derive(Debug, Clone, PartialEq, Eq)]
pub enum RenameStep {
    /// The box closes without renaming.
    Cancel,
    /// The box closes and the target takes the title.
    Commit { target: RenameTarget, title: String },
    /// The box stays open with this state; `changed` tells whether to redraw.
    Edit { state: RenameState, changed: bool },
}

/// The cursor never passes the end of the text.
pub open spec fn rename_state_ok(s: RenameState) -> bool {
    s.cursor <= s.input@.len()
}

/// The title committed for a target.
pub open spec fn committed_title(target: RenameTarget, input: Seq<char>) -> Seq<char> {
    let t = trimmed_text(input);
    if t.len() == 0 {
        match target {
            RenameTarget::Tab(id) => default_tab_title(id),
            RenameTarget::Pane(id) => default_pane_title(id),
        }
    } else {
        t
    }
}

/// Handles a key in the rename box: escape cancels, enter commits the
/// trimmed text (or the default title), backspace deletes before the
/// cursor, the arrows and home and end move the cursor, and a character
/// typed without control goes in at the cursor.
pub fn rename_key(state: RenameState, event: KeyEvent) -> (r: RenameStep)
    requires
        rename_state_ok(state),
        match state.target {
            RenameTarget::Tab(id) => id@ < u64::MAX,
            RenameTarget::Pane(_) => true,
        },
        state.input@.len() < usize::MAX,
    ensures
        event.code == KeyCode::Esc ==> r == RenameStep::Cancel,
        event.code == KeyCode::Enter ==> (r matches RenameStep::Commit { target, title } && target == state.target
            && title@ == committed_title(state.target, state.input@)),
        r matches RenameStep::Edit { state: s, changed } ==> rename_state_ok(s) && s.target == state.target && match event.code {
            KeyCode::Backspace => if state.cursor > 0 {
                s.input@ == state.input@.remove(state.cursor - 1) && s.cursor == state.cursor - 1 && changed
            } else {
                s.input@ == state.input@ && s.cursor == state.cursor && !changed
            },
            KeyCode::Left => s.input@ == state.input@ && s.cursor == (if state.cursor > 0 {
                state.cursor - 1
            } else {
                0
            }) && changed,
            KeyCode::Right => s.input@ == state.input@ && s.cursor == (if state.cursor < state.input@.len() {
                state.cursor + 1
            } else {
                state.input@.len() as int
            }) && changed,
            KeyCode::Home => s.input@ == state.input@ && s.cursor == 0 && changed,
            KeyCode::End => s.input@ == state.input@ && s.cursor == state.input@.len() && changed,
            KeyCode::Char(ch) => if event.modifiers.bits & CONTROL_BITS == 0 {
                s.input@ == (if state.cursor < state.input@.len() {
                    state.input@.insert(state.cursor as int, ch)
                } else {
                    state.input@.push(ch)
                }) && s.cursor == state.cursor + 1 && changed
            } else {
                s.input@ == state.input@ && s.cursor == state.cursor && !changed
            },
            _ => s.input@ == state.input@ && s.cursor == state.cursor && !changed,
        },
        event.code != KeyCode::Esc && event.code != KeyCode::Enter ==> r is Edit,
{
    let RenameState { target, input, cursor } = state;
    match event.code {
        KeyCode::Esc => RenameStep::Cancel,
        KeyCode::Enter => {
            let title = match target {
                RenameTarget::Tab(id) => normalized_tab_title(id, input.as_str()),
                RenameTarget::Pane(id) => normalized_pane_title(id, input.as_str()),
            };
            RenameStep::Commit { target, title }
        },
        KeyCode::Backspace => {
            if cursor > 0 {
                let input = remove_char_at(input.as_str(), cursor - 1);
                RenameStep::Edit { state: RenameState { target, input, cursor: cursor - 1 }, changed: true }
            } else {
                RenameStep::Edit { state: RenameState { target, input, cursor }, changed: false }
            }
        },
        KeyCode::Left => {
            let c = if cursor > 0 { cursor - 1 } else { 0 };
            RenameStep::Edit { state: RenameState { target, input, cursor: c }, changed: true }
        },
        KeyCode::Right => {
            let len = input.as_str().unicode_len();
            let c = if cursor < len { cursor + 1 } else { len };
            RenameStep::Edit { state: RenameState { target, input, cursor: c }, changed: true }
        },
        KeyCode::Home => RenameStep::Edit { state: RenameState { target, input, cursor: 0 }, changed: true },
        KeyCode::End => {
            let len = input.as_str().unicode_len();
            RenameStep::Edit { state: RenameState { target, input, cursor: len }, changed: true }
        },
        KeyCode::Char(ch) => {
            if event.modifiers.bits & CONTROL_BITS == 0 {
                let input = insert_char_at(input.as_str(), cursor, ch);
                RenameStep::Edit { state: RenameState { target, input, cursor: cursor + 1 }, changed: true }
            } else {
                RenameStep::Edit { state: RenameState { target, input, cursor }, changed: false }
            }
        },
        _ => RenameStep::Edit { state: RenameState { target, input, cursor }, changed: false },
    }
}


/// The rename box for the active tab: its title, the cursor at its end.
pub fn open_rename_tab_state(tabs: &TabManager) -> (s: RenameState)
    requires
        tabs.wf(),
    ensures
        s.target == RenameTarget::Tab(tabs.active_model().id),
        s.input@ == tabs.active_model().title,
        s.cursor == s.input@.len(),
        rename_state_ok(s),
{
    let input = owned(tabs.active_tab_title());
    let cursor = input.as_str().unicode_len();
    RenameState { target: RenameTarget::Tab(tabs.active_tab_id()), input, cursor }
}

/// The rename box for the focused pane of the active tab: its title, or
/// the default one when it has no entry, the cursor at its end.
pub fn open_rename_pane_state(tabs: &TabManager) -> (s: RenameState)
    requires
        tabs.wf(),
    ensures
        s.target == RenameTarget::Pane(tabs.active_model().focused),
        s.input@ == (match pane_location(tabs.tabs(), tabs.active_model().focused) {
            Some((i, j)) => tabs.tabs()[i].panes[j].title,
            None => default_pane_title(tabs.active_model().focused),
        }),
        s.cursor == s.input@.len(),
        rename_state_ok(s),
{
    let pane = tabs.active_pane_id();
    let input = match tabs.active_pane_title() {
        Ok(t) => owned(t),
        Err(_) => default_pane_title_for(pane),
    };
    let cursor = input.as_str().unicode_len();
    RenameState { target: RenameTarget::Pane(pane), input, cursor }
}
} // verus!
