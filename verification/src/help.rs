//! The help text, its overlay, and how the overlay scrolls.

use vstd::prelude::*;

use crate::keys::{KeyCode, KeyEvent, SHIFT_BITS};
use crate::platform_keys::{bindings_of, key_bindings_for_profile, PlatformKeyBindings, PlatformKeyProfile};
use crate::text::{chars_of, push_char, push_str, str_eq, string_of, trim, trimmed_text};

verus! {

broadcast use vstd::std_specs::vec::group_vec_axioms;

/// The help text before the keybindings that depend on the platform.
pub const HELP_HEAD: &'static str = "mtrm

Usage:
  mtrm
  mtrm -h | --help
  mtrm -v | --version
  mtrm [--no-clipboard]
  mtrm [--debug-log PATH]

Options:
  -h, --help       Print this help and exit
  -v, --version    Print version and exit
  --no-clipboard   Disable system clipboard integration
  --debug-log PATH Append raw PTY output chunks to PATH for debugging

Keybindings:
  Ctrl+C           Copy selection
  Ctrl+V           Paste from system clipboard
";

/// The help text after the keybindings that depend on the platform.
pub const HELP_TAIL: &'static str = "  Shift+Up         Scroll pane history up
  Shift+Down       Scroll pane history down
  Shift+PageUp     Scroll pane history up by one page
  Shift+PageDown   Scroll pane history down by one page
  End              Return scrollback to live bottom

Notes:
  Letter-based command keys come from ~/.mtrm/keymap.toml.
  Arrow and scrollback bindings are built in.
";

/// A label padded with spaces to 16 characters.
pub open spec fn padded(label: Seq<char>) -> Seq<char> {
    if label.len() < 16 {
        label + Seq::new((16 - label.len()) as nat, |i: int| ' ')
    } else {
        label
    }
}

/// One line of the keybindings: the label, padded, and what it does.
pub open spec fn help_line(label: Seq<char>, what: Seq<char>) -> Seq<char> {
    "  "@ + padded(label) + " "@ + what + "\n"@
}

/// The keybindings that depend on the platform, with what each does.
pub open spec fn help_entries(b: PlatformKeyBindings) -> Seq<(Seq<char>, Seq<char>)> {
    seq![
        (b.interrupt.label@, "Send interrupt to active process"@),
        (b.split_vertical.label@, "Split active pane left/right"@),
        (b.split_horizontal.label@, "Split active pane top/bottom"@),
        (b.close_pane.label@, "Close active pane"@),
        (b.new_tab.label@, "New tab"@),
        (b.previous_tab.label@, "Previous tab"@),
        (b.next_tab.label@, "Next tab"@),
        (b.close_tab.label@, "Close current tab"@),
        (b.rename_tab.label@, "Rename current tab"@),
        (b.rename_pane.label@, "Rename current pane"@),
        (b.open_help.label@, "Open help overlay"@),
        (b.resize_left.label@, "Resize pane left"@),
        (b.resize_right.label@, "Resize pane right"@),
        (b.resize_up.label@, "Resize pane up"@),
        (b.resize_down.label@, "Resize pane down"@),
        (b.quit.label@, "Save state and quit"@),
        (b.focus_left.label@, "Focus pane left"@),
        (b.focus_right.label@, "Focus pane right"@),
        (b.focus_up.label@, "Focus pane up"@),
        (b.focus_down.label@, "Focus pane down"@),
    ]
}

/// The lines of the entries, one after another.
pub open spec fn entry_lines(es: Seq<(Seq<char>, Seq<char>)>) -> Seq<char>
    decreases es.len(),
{
    if es.len() == 0 {
        seq![]
    } else {
        entry_lines(es.drop_last()) + help_line(es.last().0, es.last().1)
    }
}

/// The help text for the shortcuts `b`.
pub open spec fn help_text_of(b: PlatformKeyBindings) -> Seq<char> {
    HELP_HEAD@ + entry_lines(help_entries(b)) + HELP_TAIL@
}

/// Appends `label` padded with spaces to 16 characters.
fn push_padded(out: &mut String, label: &str)
    ensures
        final(out)@ == old(out)@ + padded(label@),
{
    push_str(out, label);
    let n = label.unicode_len();
    let mut k: usize = n;
    while k < 16
        invariant
            n == label@.len(),
            n <= k <= 16 || (n > 16 && k == n),
            out@ == old(out)@ + label@ + Seq::new((k - n) as nat, |i: int| ' '),
        decreases 16 - k,
    {
        push_char(out, ' ');
        proof {
            assert(out@ =~= old(out)@ + label@ + Seq::new((k + 1 - n) as nat, |i: int| ' '));
        }
        k = k + 1;
    }
    proof {
        if n >= 16 {
            assert(out@ =~= old(out)@ + label@);
        } else {
            assert(out@ =~= old(out)@ + padded(label@));
        }
    }
}

/// The platform keybindings of `b`, with what each does.
fn entries_of(b: &PlatformKeyBindings) -> (v: Vec<(&'static str, &'static str)>)
    ensures
        v@.len() == help_entries(*b).len(),
        forall|i: int| 0 <= i < v@.len() ==> (#[trigger] v@[i]).0@ == help_entries(*b)[i].0 && v@[i].1@ == help_entries(*b)[i].1,
{
    let v = vec![
        (b.interrupt.label, "Send interrupt to active process"),
        (b.split_vertical.label, "Split active pane left/right"),
        (b.split_horizontal.label, "Split active pane top/bottom"),
        (b.close_pane.label, "Close active pane"),
        (b.new_tab.label, "New tab"),
        (b.previous_tab.label, "Previous tab"),
        (b.next_tab.label, "Next tab"),
        (b.close_tab.label, "Close current tab"),
        (b.rename_tab.label, "Rename current tab"),
        (b.rename_pane.label, "Rename current pane"),
        (b.open_help.label, "Open help overlay"),
        (b.resize_left.label, "Resize pane left"),
        (b.resize_right.label, "Resize pane right"),
        (b.resize_up.label, "Resize pane up"),
        (b.resize_down.label, "Resize pane down"),
        (b.quit.label, "Save state and quit"),
        (b.focus_left.label, "Focus pane left"),
        (b.focus_right.label, "Focus pane right"),
        (b.focus_up.label, "Focus pane up"),
        (b.focus_down.label, "Focus pane down"),
    ];
    v
}

/// The help text of the program for the shortcuts of `profile`.
pub fn help_text_for_profile(profile: PlatformKeyProfile) -> (s: String)
    ensures
        s@ == help_text_of(bindings_of(profile)),
{
    let b = key_bindings_for_profile(profile);
    let es = entries_of(&b);
    let ghost spec_es = help_entries(b);
    let mut out = String::new();
    push_str(&mut out, HELP_HEAD);
    let ghost head = out@;
    let mut i: usize = 0;
    while i < es.len()
        invariant
            0 <= i <= es@.len(),
            es@.len() == spec_es.len(),
            forall|k: int| 0 <= k < es@.len() ==> (#[trigger] es@[k]).0@ == spec_es[k].0 && es@[k].1@ == spec_es[k].1,
            out@ == head + entry_lines(spec_es.take(i as int)),
        decreases es@.len() - i,
    {
        let (label, what) = es[i];
        push_str(&mut out, "  ");
        push_padded(&mut out, label);
        push_str(&mut out, " ");
        push_str(&mut out, what);
        push_str(&mut out, "\n");
        proof {
            let t = spec_es.take(i + 1);
            assert(t.drop_last() =~= spec_es.take(i as int));
            assert(t.last() == spec_es[i as int]);
            assert(out@ =~= head + entry_lines(t));
        }
        i = i + 1;
    }
    push_str(&mut out, HELP_TAIL);
    proof {
        assert(spec_es.take(es@.len() as int) =~= spec_es);
        assert(out@ =~= help_text_of(b));
    }
    out
}

/// The pieces of `t` between line breaks: one more than it has breaks.
pub open spec fn pieces(t: Seq<char>) -> Seq<Seq<char>>
    decreases t.len(),
{
    if t.len() == 0 {
        seq![seq![]]
    } else {
        let p = pieces(t.drop_last());
        if t.last() == '\n' {
            p.push(seq![])
        } else {
            p.update(p.len() - 1, p.last().push(t.last()))
        }
    }
}

/// The lines of a text: the pieces between line breaks, with no empty last
/// line after a final break and none for an empty text.
pub open spec fn text_lines(t: Seq<char>) -> Seq<Seq<char>> {
    if t.len() == 0 {
        seq![]
    } else if t.last() == '\n' {
        pieces(t.drop_last())
    } else {
        pieces(t)
    }
}

proof fn lemma_pieces_nonempty(t: Seq<char>)
    ensures
        pieces(t).len() >= 1,
    decreases t.len(),
{
    if t.len() > 0 {
        lemma_pieces_nonempty(t.drop_last());
    }
}

/// The lines of `text`.
pub fn text_lines_of(text: &str) -> (r: Vec<String>)
    ensures
        r@.map_values(|s: String| s@) == text_lines(text@),
{
    let cs = chars_of(text);
    let n = cs.len();
    let mut lines: Vec<String> = Vec::new();
    let mut cur: Vec<char> = Vec::new();
    let mut i: usize = 0;
    proof {
        assert(cs@.take(0) =~= Seq::<char>::empty());
    }
    while i < n
        invariant
            0 <= i <= n,
            n == cs@.len(),
            cs@ == text@,
            lines@.map_values(|s: String| s@).push(cur@) == pieces(cs@.take(i as int)),
        decreases n - i,
    {
        let ghost before = lines@.map_values(|s: String| s@);
        let ghost t = cs@.take(i + 1);
        proof {
            assert(t.drop_last() =~= cs@.take(i as int));
            assert(t.last() == cs@[i as int]);
        }
        if cs[i] == '\n' {
            let line = string_of(&cur);
            lines.push(line);
            cur = Vec::new();
            proof {
                assert(lines@.map_values(|s: String| s@) =~= before.push(line@));
                assert(lines@.map_values(|s: String| s@).push(cur@) =~= pieces(t));
            }
        } else {
            cur.push(cs[i]);
            proof {
                assert(lines@.map_values(|s: String| s@).push(cur@) =~= pieces(t));
            }
        }
        i = i + 1;
    }
    proof {
        assert(cs@.take(n as int) =~= cs@);
    }
    if n == 0 {
        proof {
            assert(lines@.map_values(|s: String| s@) =~= Seq::<Seq<char>>::empty());
        }
        return lines;
    }
    if cs[n - 1] == '\n' {
        proof {
            let t = cs@;
            assert(pieces(t) == pieces(t.drop_last()).push(seq![]));
            lemma_pieces_nonempty(t.drop_last());
            let m = lines@.map_values(|s: String| s@);
            assert(m.push(cur@).drop_last() =~= m);
            assert(pieces(t.drop_last()).push(seq![]).drop_last() =~= pieces(t.drop_last()));
            assert(m =~= pieces(t.drop_last()));
        }
        lines
    } else {
        let line = string_of(&cur);
        let ghost before = lines@.map_values(|s: String| s@);
        lines.push(line);
        proof {
            assert(lines@.map_values(|s: String| s@) =~= before.push(line@));
        }
        lines
    }
}

/// The lines of the help overlay for the shortcuts of `profile`.
pub fn help_overlay_lines(profile: PlatformKeyProfile) -> (r: Vec<String>)
    ensures
        r@.map_values(|s: String| s@) == text_lines(help_text_of(bindings_of(profile))),
{
    let text = help_text_for_profile(profile);
    text_lines_of(text.as_str())
}

/// The first line that reads `Keybindings:`, spaces aside, or the first
/// line when none does.
pub open spec fn section_row(lines: Seq<Seq<char>>) -> int {
    if exists|i: int| 0 <= i < lines.len() && trimmed_text(#[trigger] lines[i]) == "Keybindings:"@ {
        choose|i: int|
            0 <= i < lines.len() && trimmed_text(lines[i]) == "Keybindings:"@ && forall|k: int|
                0 <= k < i ==> trimmed_text(#[trigger] lines[k]) != "Keybindings:"@
    } else {
        0
    }
}

/// The row of the help overlay where the keybindings start.
pub fn keybindings_section_row(lines: &Vec<String>) -> (r: usize)
    ensures
        r == section_row(lines@.map_values(|s: String| s@)),
{
    let ghost ls = lines@.map_values(|s: String| s@);
    let mut i: usize = 0;
    while i < lines.len()
        invariant
            0 <= i <= lines@.len(),
            ls == lines@.map_values(|s: String| s@),
            forall|k: int| 0 <= k < i ==> trimmed_text(#[trigger] ls[k]) != "Keybindings:"@,
        decreases lines@.len() - i,
    {
        let t = trim(lines[i].as_str());
        if str_eq(t.as_str(), "Keybindings:") {
            proof {
                assert(trimmed_text(ls[i as int]) == "Keybindings:"@);
                let c = choose|c: int|
                    0 <= c < ls.len() && trimmed_text(ls[c]) == "Keybindings:"@ && forall|k: int|
                        0 <= k < c ==> trimmed_text(#[trigger] ls[k]) != "Keybindings:"@;
                if c < i {
                } else if c > i {
                    assert(trimmed_text(ls[i as int]) != "Keybindings:"@);
                }
            }
            return i;
        }
        i = i + 1;
    }
    proof {
        if exists|c: int| 0 <= c < ls.len() && trimmed_text(#[trigger] ls[c]) == "Keybindings:"@ {
            let c = choose|c: int| 0 <= c < ls.len() && trimmed_text(#[trigger] ls[c]) == "Keybindings:"@;
            assert(trimmed_text(ls[c]) != "Keybindings:"@);
        }
    }
    0
}

/// The last row the overlay can scroll to, showing `page_rows` rows.
pub fn max_help_scroll_row(line_count: usize, page_rows: usize) -> (r: usize)
    ensures
        r == (if line_count >= page_rows { line_count - page_rows } else { 0 }),
{
    line_count.saturating_sub(page_rows)
}

/// The longest line, in characters, or 0.
pub open spec fn longest(lines: Seq<Seq<char>>) -> int
    decreases lines.len(),
{
    if lines.len() == 0 {
        0
    } else {
        let m = longest(lines.drop_last());
        if lines.last().len() > m {
            lines.last().len() as int
        } else {
            m
        }
    }
}

/// The last column the overlay can scroll to: one before the end of the
/// longest line.
pub fn max_help_scroll_col(lines: &Vec<String>) -> (r: usize)
    ensures
        r == (if longest(lines@.map_values(|s: String| s@)) >= 1 {
            longest(lines@.map_values(|s: String| s@)) - 1
        } else {
            0
        }),
{
    let ghost ls = lines@.map_values(|s: String| s@);
    let mut m: usize = 0;
    let mut i: usize = 0;
    proof {
        assert(ls.take(0) =~= Seq::<Seq<char>>::empty());
    }
    while i < lines.len()
        invariant
            0 <= i <= lines@.len(),
            ls == lines@.map_values(|s: String| s@),
            m == longest(ls.take(i as int)),
        decreases lines@.len() - i,
    {
        let n = lines[i].as_str().unicode_len();
        proof {
            let t = ls.take(i + 1);
            assert(t.drop_last() =~= ls.take(i as int));
            assert(t.last() == ls[i as int]);
        }
        if n > m {
            m = n;
        }
        i = i + 1;
    }
    proof {
        assert(ls.take(lines@.len() as int) =~= ls);
    }
    m.saturating_sub(1)
}

/// The rows of the help overlay's body when the content area is
/// `content_height` rows high: the modal takes at most 20 rows of the
/// terminal, less its border and, when there is room, its hint line; at
/// least one.
pub fn help_body_rows(content_height: u16) -> (r: usize)
    ensures
        ({
            let full = if content_height < 65535 { content_height + 1 } else { 65535 };
            let modal = if full < 20 { full } else { 20 };
            let inner = if modal >= 2 { modal - 2 } else { 0 };
            let hint = if inner > 1 { 1int } else { 0int };
            r == (if inner - hint >= 1 { inner - hint } else { 1 })
        }),
{
    let full = content_height.saturating_add(1);
    let modal = if full < 20 { full } else { 20 };
    let inner = modal.saturating_sub(2);
    let hint: u16 = if inner > 1 { 1 } else { 0 };
    let body = inner.saturating_sub(hint);
    if body >= 1 { body as usize } else { 1 }
}

/// Where the help overlay is scrolled to.
#[derive(Debug, Clone, Copy, PartialEq, Eq, Structural)]
pub struct HelpOverlayState {
    pub scroll_row: usize,
    pub scroll_col: usize,
}

/// The overlay as it opens: at the keybindings, as far as it can scroll.
pub fn opened_help_overlay(section_row: usize, max_row: usize) -> (s: HelpOverlayState)
    ensures
        s.scroll_row == (if section_row <= max_row { section_row } else { max_row }),
        s.scroll_col == 0,
{
    HelpOverlayState { scroll_row: if section_row <= max_row { section_row } else { max_row }, scroll_col: 0 }
}

/// What a key does to the help overlay.
#[derive(Debug, Clone, Copy, PartialEq, Eq, Structural)]
pub enum HelpKeyOutcome {
    Close,
    Scroll(HelpOverlayState),
    Ignore,
}

/// The event is Shift+F1, which opens and closes the help overlay.
pub open spec fn is_help_toggle(event: KeyEvent) -> bool {
    event.modifiers.bits == SHIFT_BITS && event.code == KeyCode::F(1)
}

/// Whether the event opens or closes the help overlay.
pub fn is_toggle_help_overlay_event(event: KeyEvent) -> (r: bool)
    ensures
        r == is_help_toggle(event),
{
    event.modifiers.bits == SHIFT_BITS && event.code == KeyCode::F(1)
}

/// What a key does to the overlay at `state`, a page being `page_rows`
/// rows and the scroll limits `max_row` and `max_col`: Esc and Shift+F1
/// close it, arrows move one row or column, PageUp and PageDown a page,
/// Home to the start and End to the limits; other keys do nothing.
pub fn help_key(state: HelpOverlayState, event: KeyEvent, page_rows: usize, max_row: usize, max_col: usize) -> (r: HelpKeyOutcome)
    ensures
        r == (match event.code {
            KeyCode::Esc => HelpKeyOutcome::Close,
            KeyCode::Up => HelpKeyOutcome::Scroll(HelpOverlayState {
                scroll_row: if state.scroll_row >= 1 { (state.scroll_row - 1) as usize } else { 0 },
                ..state
            }),
            KeyCode::Down => HelpKeyOutcome::Scroll(HelpOverlayState {
                scroll_row: if state.scroll_row + 1 <= max_row { (state.scroll_row + 1) as usize } else { max_row },
                ..state
            }),
            KeyCode::Left => HelpKeyOutcome::Scroll(HelpOverlayState {
                scroll_col: if state.scroll_col >= 1 { (state.scroll_col - 1) as usize } else { 0 },
                ..state
            }),
            KeyCode::Right => HelpKeyOutcome::Scroll(HelpOverlayState {
                scroll_col: if state.scroll_col + 1 <= max_col { (state.scroll_col + 1) as usize } else { max_col },
                ..state
            }),
            KeyCode::PageUp => HelpKeyOutcome::Scroll(HelpOverlayState {
                scroll_row: if state.scroll_row >= page_rows { (state.scroll_row - page_rows) as usize } else { 0 },
                ..state
            }),
            KeyCode::PageDown => HelpKeyOutcome::Scroll(HelpOverlayState {
                scroll_row: if state.scroll_row + page_rows <= max_row {
                    (state.scroll_row + page_rows) as usize
                } else {
                    max_row
                },
                ..state
            }),
            KeyCode::Home => HelpKeyOutcome::Scroll(HelpOverlayState { scroll_row: 0, scroll_col: 0 }),
            KeyCode::End => HelpKeyOutcome::Scroll(HelpOverlayState { scroll_row: max_row, scroll_col: max_col }),
            KeyCode::F(1) => if event.modifiers.bits == SHIFT_BITS {
                HelpKeyOutcome::Close
            } else {
                HelpKeyOutcome::Ignore
            },
            _ => HelpKeyOutcome::Ignore,
        }),
{
    match event.code {
        KeyCode::Esc => HelpKeyOutcome::Close,
        KeyCode::Up => HelpKeyOutcome::Scroll(HelpOverlayState { scroll_row: state.scroll_row.saturating_sub(1), ..state }),
        KeyCode::Down => {
            let next = state.scroll_row.saturating_add(1);
            HelpKeyOutcome::Scroll(HelpOverlayState { scroll_row: if next <= max_row { next } else { max_row }, ..state })
        },
        KeyCode::Left => HelpKeyOutcome::Scroll(HelpOverlayState { scroll_col: state.scroll_col.saturating_sub(1), ..state }),
        KeyCode::Right => {
            let next = state.scroll_col.saturating_add(1);
            HelpKeyOutcome::Scroll(HelpOverlayState { scroll_col: if next <= max_col { next } else { max_col }, ..state })
        },
        KeyCode::PageUp => HelpKeyOutcome::Scroll(HelpOverlayState { scroll_row: state.scroll_row.saturating_sub(page_rows), ..state }),
        KeyCode::PageDown => {
            let next = state.scroll_row.saturating_add(page_rows);
            HelpKeyOutcome::Scroll(HelpOverlayState { scroll_row: if next <= max_row { next } else { max_row }, ..state })
        },
        KeyCode::Home => HelpKeyOutcome::Scroll(HelpOverlayState { scroll_row: 0, scroll_col: 0 }),
        KeyCode::End => HelpKeyOutcome::Scroll(HelpOverlayState { scroll_row: max_row, scroll_col: max_col }),
        KeyCode::F(1) => if event.modifiers.bits == SHIFT_BITS {
            HelpKeyOutcome::Close
        } else {
            HelpKeyOutcome::Ignore
        },
        _ => HelpKeyOutcome::Ignore,
    }
}

} // verus!
