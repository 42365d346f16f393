//! What the screen shows, as plain values, and the arithmetic of placing it.

use vstd::prelude::*;

use crate::base::{PaneId, TabId};
use crate::layout::Rect;
use crate::screen::{line_model, lines_model, CellModel, ScreenCell, ScreenColor, ScreenLine};
use crate::text::{chars_of, string_of};

verus! {

broadcast use vstd::std_specs::vec::group_vec_axioms;

/// Rows the tab bar takes at the top.
pub const TAB_BAR_HEIGHT: u16 = 1;

/// What separates two tab titles in the tab bar.
pub const TAB_DIVIDER: &'static str = " | ";

/// A tab in the tab bar.
#[derive(Debug, Clone, PartialEq, Eq)]
pub struct TabView {
    pub id: TabId,
    pub title: String,
    pub active: bool,
}

/// A selection inside a pane, from one cell to another.
#[derive(Debug, Clone, Copy, PartialEq, Eq)]
pub struct PaneSelectionView {
    pub start: (u16, u16),
    pub end: (u16, u16),
}

/// A pane as drawn.
#[derive(Debug, Clone, PartialEq, Eq)]
pub struct PaneView {
    pub id: PaneId,
    pub title: String,
    pub area: Rect,
    pub active: bool,
    pub lines: Vec<ScreenLine>,
    pub selection: Option<PaneSelectionView>,
    pub cursor: Option<(u16, u16)>,
}

/// A notice about the clipboard.
#[derive(Debug, Clone, PartialEq, Eq)]
pub struct ClipboardNoticeView {
    pub text: String,
}

/// A modal input box.
#[derive(Debug, Clone, PartialEq, Eq)]
pub struct InputModalView {
    pub title: String,
    pub input: String,
    pub cursor: usize,
    pub hint: String,
}

/// A modal box of text that scrolls.
#[derive(Debug, Clone, PartialEq, Eq)]
pub struct TextModalView {
    pub title: String,
    pub lines: Vec<String>,
    pub scroll_row: usize,
    pub scroll_col: usize,
    pub hint: String,
}

/// A modal box over the frame.
#[derive(Debug, Clone, PartialEq, Eq)]
pub enum ModalView {
    Input(InputModalView),
    Text(TextModalView),
}

/// Everything one frame shows.
#[derive(Debug, Clone, PartialEq, Eq)]
pub struct FrameView {
    pub tabs: Vec<TabView>,
    pub panes: Vec<PaneView>,
    pub focused: bool,
    pub clipboard_notice: Option<ClipboardNoticeView>,
    pub modal: Option<ModalView>,
}

/// Cell `a` comes no later than cell `b`, row first.
pub open spec fn cell_le(a: (u16, u16), b: (u16, u16)) -> bool {
    a.0 < b.0 || (a.0 == b.0 && a.1 <= b.1)
}

/// The selection, from its earlier end to its later end, holds the cell.
pub open spec fn selected(sel: PaneSelectionView, row: u16, col: u16) -> bool {
    let (s, e) = if cell_le(sel.start, sel.end) {
        (sel.start, sel.end)
    } else {
        (sel.end, sel.start)
    };
    cell_le(s, (row, col)) && cell_le((row, col), e)
}

/// Whether the selection holds the cell at `row`, `col`.
pub fn selection_contains(selection: &PaneSelectionView, row: u16, col: u16) -> (r: bool)
    ensures
        r == selected(*selection, row, col),
{
    let (start, end) = if selection.start.0 < selection.end.0 || (selection.start.0 == selection.end.0
        && selection.start.1 <= selection.end.1) {
        (selection.start, selection.end)
    } else {
        (selection.end, selection.start)
    };
    if row < start.0 || row > end.0 {
        return false;
    }
    if start.0 == end.0 {
        return row == start.0 && col >= start.1 && col <= end.1;
    }
    if row == start.0 {
        return col >= start.1;
    }
    if row == end.0 {
        return col <= end.1;
    }
    true
}

/// `rect`, given below the tab bar inside `full`, moved onto the screen and
/// cut to `full`; empty when it starts outside.
pub open spec fn shifted_clip(rect: Rect, full: Rect) -> Rect {
    let x = crate::geometry::saturate(full.x + rect.x);
    let y = crate::geometry::saturate(crate::geometry::saturate(full.y + TAB_BAR_HEIGHT) + rect.y);
    let max_y = crate::geometry::saturate(full.y + full.height);
    let max_x = crate::geometry::saturate(full.x + full.width);
    if x >= max_x || y >= max_y {
        Rect { x, y, width: 0, height: 0 }
    } else {
        Rect {
            x,
            y,
            width: if rect.width <= max_x - x {
                rect.width
            } else {
                (max_x - x) as u16
            },
            height: if rect.height <= max_y - y {
                rect.height
            } else {
                (max_y - y) as u16
            },
        }
    }
}

pub fn shift_and_clip_rect(rect: Rect, full_area: Rect) -> (r: Rect)
    ensures
        r == shifted_clip(rect, full_area),
{
    let x = full_area.x.saturating_add(rect.x);
    let y = full_area.y.saturating_add(TAB_BAR_HEIGHT).saturating_add(rect.y);
    let max_y = full_area.y.saturating_add(full_area.height);
    let max_x = full_area.x.saturating_add(full_area.width);
    if x >= max_x || y >= max_y {
        return Rect { x, y, width: 0, height: 0 };
    }
    let room_x = max_x - x;
    let room_y = max_y - y;
    let width = if rect.width <= room_x { rect.width } else { room_x };
    let height = if rect.height <= room_y { rect.height } else { room_y };
    Rect { x, y, width, height }
}

/// The width of the tab titles and the dividers between them; four when
/// there are no tabs.
pub open spec fn titles_width(titles: Seq<String>) -> int
    decreases titles.len(),
{
    if titles.len() == 0 {
        0
    } else {
        titles_width(titles.drop_last()) + titles.last()@.len()
    }
}

/// The titles of tab views.
pub open spec fn tab_titles(tabs: Seq<TabView>) -> Seq<String> {
    tabs.map_values(|t: TabView| t.title)
}

/// The width the tab bar needs for its titles and dividers.
pub fn tab_bar_titles_width(frame_view: &FrameView) -> (w: u16)
    requires
        titles_width(tab_titles(frame_view.tabs@)) <= 65535,
    ensures
        frame_view.tabs@.len() == 0 ==> w == 4,
        frame_view.tabs@.len() > 0 ==> w == crate::geometry::saturate(
            titles_width(tab_titles(frame_view.tabs@)) + if 3 * (frame_view.tabs@.len() - 1) > 65535 {
                65535
            } else {
                3 * (frame_view.tabs@.len() - 1)
            },
        ),
{
    let n = frame_view.tabs.len();
    if n == 0 {
        return 4;
    }
    let ghost ts = tab_titles(frame_view.tabs@);
    let mut total: u16 = 0;
    let mut i: usize = 0;
    while i < n
        invariant
            0 <= i <= n,
            n == frame_view.tabs@.len(),
            ts == tab_titles(frame_view.tabs@),
            titles_width(ts) <= 65535,
            total == titles_width(ts.take(i as int)),
        decreases n - i,
    {
        proof {
            assert(ts.take(i + 1).drop_last() =~= ts.take(i as int));
            lemma_titles_width_prefix(ts, i + 1);
        }
        let len = frame_view.tabs[i].title.as_str().unicode_len();
        total = total + len as u16;
        i = i + 1;
    }
    proof {
        assert(ts.take(n as int) =~= ts);
        reveal_strlit(" | ");
    }
    let divider_width: u16 = 3;
    let gaps = n - 1;
    let divider_total: u16 = if gaps > 21845 { 65535 } else { divider_width * gaps as u16 };
    total.saturating_add(divider_total)
}

proof fn lemma_titles_width_prefix(ts: Seq<String>, i: int)
    requires
        0 <= i <= ts.len(),
    ensures
        titles_width(ts.take(i)) <= titles_width(ts),
    decreases ts.len() - i,
{
    if i < ts.len() {
        lemma_titles_width_prefix(ts, i + 1);
        assert(ts.take(i + 1).drop_last() =~= ts.take(i));
    } else {
        assert(ts.take(i) =~= ts);
    }
}

/// The part of an input line of `len` characters shown in `width` columns
/// with the cursor at `cursor`: the first shown character and the cursor's
/// column.
pub open spec fn input_window(len: int, cursor: int, width: int) -> (int, int) {
    let c = if cursor <= len {
        cursor
    } else {
        len
    };
    let s0 = if c >= width - 1 {
        c - (width - 1)
    } else {
        0
    };
    let start = if s0 + width > len {
        len - width
    } else {
        s0
    };
    (start, c - start)
}

/// The visible part of an input of which `width` columns can be shown, and
/// where the cursor falls in it.
pub fn visible_input_window(input: &str, cursor: usize, width: usize) -> (r: (String, usize))
    ensures
        width == 0 ==> r.0@ == Seq::<char>::empty() && r.1 == 0,
        width > 0 && input@.len() <= width ==> r.0@ == input@ && r.1 == (if cursor <= input@.len() {
            cursor as int
        } else {
            input@.len() as int
        }),
        width > 0 && input@.len() > width ==> {
            let w = input_window(input@.len() as int, cursor as int, width as int);
            r.0@ == input@.subrange(w.0, w.0 + width) && r.1 == w.1
        },
{
    if width == 0 {
        return (String::new(), 0);
    }
    let chars = chars_of(input);
    let len = chars.len();
    if len <= width {
        let c = if cursor <= len { cursor } else { len };
        return (crate::text::owned(input), c);
    }
    let c = if cursor <= len { cursor } else { len };
    let mut start = if c >= width - 1 { c - (width - 1) } else { 0 };
    if start > len - width {
        start = len - width;
    }
    let end = start + width;
    let mut visible: Vec<char> = Vec::new();
    let mut i = start;
    while i < end
        invariant
            start <= i <= end,
            end <= len,
            len == input@.len(),
            chars@ == input@,
            visible@ == input@.subrange(start as int, i as int),
        decreases end - i,
    {
        visible.push(chars[i]);
        proof {
            assert(visible@ =~= input@.subrange(start as int, i + 1));
        }
        i = i + 1;
    }
    (string_of(&visible), c - start)
}

/// Where the panes are drawn in a terminal `width` by `height` cells: all
/// of it below the tab bar's row.
pub fn terminal_content_area(width: u16, height: u16) -> (r: Rect)
    ensures
        r == (Rect { x: 0, y: 0, width, height: if height >= 1 { (height - 1) as u16 } else { 0 } }),
{
    Rect { x: 0, y: 0, width, height: height.saturating_sub(1) }
}


/// A colour a cell is drawn in.
#[derive(Debug, Clone, Copy, PartialEq, Eq, Structural)]
pub enum DrawColor {
    /// The terminal's own colour.
    Reset,
    Black,
    Gray,
    Indexed(u8),
    Rgb(u8, u8, u8),
}

/// How a cell is drawn: its colours (the terminal's own where none) and
/// attributes.
#[derive(Debug, Clone, Copy, PartialEq, Eq, Structural)]
pub struct CellStyle {
    pub fg: Option<DrawColor>,
    pub bg: Option<DrawColor>,
    pub bold: bool,
    pub dim: bool,
    pub italic: bool,
    pub underline: bool,
    pub reversed: bool,
}

/// A cell to draw at column `col` and row `row` of a pane's content box.
#[derive(Debug, Clone, PartialEq, Eq)]
pub struct DrawnCell {
    pub col: u16,
    pub row: u16,
    pub symbol: String,
    pub style: CellStyle,
}

/// The mathematical form of a cell to draw.
pub struct DrawnModel {
    pub col: u16,
    pub row: u16,
    pub symbol: Seq<char>,
    pub style: CellStyle,
}

/// The mathematical form of a list of cells to draw.
pub open spec fn drawn_models(ds: Seq<DrawnCell>) -> Seq<DrawnModel> {
    ds.map_values(|d: DrawnCell| DrawnModel { col: d.col, row: d.row, symbol: d.symbol@, style: d.style })
}

/// The colour of a screen colour: none for the default one.
pub open spec fn draw_color(c: ScreenColor) -> Option<DrawColor> {
    match c {
        ScreenColor::Default => None,
        ScreenColor::Indexed(i) => Some(DrawColor::Indexed(i)),
        ScreenColor::Rgb(r, g, b) => Some(DrawColor::Rgb(r, g, b)),
    }
}

/// The style of a screen cell. An inverse cell swaps its colours, the
/// terminal's own colour standing in for a missing one, or is drawn black
/// on gray when it has neither; it is marked reversed.
pub open spec fn cell_style_of(c: CellModel) -> CellStyle {
    let fg = draw_color(c.fg);
    let bg = draw_color(c.bg);
    let (f, b) = if !c.inverse {
        (fg, bg)
    } else {
        match (fg, bg) {
            (Some(x), Some(y)) => (Some(y), Some(x)),
            (Some(x), None) => (Some(DrawColor::Reset), Some(x)),
            (None, Some(y)) => (Some(y), Some(DrawColor::Reset)),
            (None, None) => (Some(DrawColor::Black), Some(DrawColor::Gray)),
        }
    };
    CellStyle {
        fg: f,
        bg: b,
        bold: c.bold,
        dim: c.dim,
        italic: c.italic,
        underline: c.underline,
        reversed: c.inverse,
    }
}

/// The cell drawn for screen cell `c` at (`col`, `row`): its text, or a
/// space for an empty cell, in its style.
pub open spec fn drawn_cell(c: CellModel, col: int, row: int) -> DrawnModel {
    DrawnModel {
        col: col as u16,
        row: row as u16,
        symbol: if c.has_contents { c.text } else { seq![' '] },
        style: cell_style_of(c),
    }
}

/// The cells of row `l` drawn from column `c` on, within `width` columns.
pub open spec fn drawn_row(l: Seq<CellModel>, row: int, width: int, c: int) -> Seq<DrawnModel>
    decreases l.len() - c,
{
    if c < 0 || c >= l.len() || c >= width {
        seq![]
    } else {
        seq![drawn_cell(l[c], c, row)] + drawn_row(l, row, width, c + 1)
    }
}

/// The cells of the rows of `ls` from row `i` on, within `width` columns and
/// `height` rows, row by row.
pub open spec fn drawn_rows(ls: Seq<Seq<CellModel>>, width: int, height: int, i: int) -> Seq<DrawnModel>
    decreases ls.len() - i,
{
    if i < 0 || i >= ls.len() || i >= height {
        seq![]
    } else {
        drawn_row(ls[i], i, width, 0) + drawn_rows(ls, width, height, i + 1)
    }
}

fn to_draw_color(c: ScreenColor) -> (r: Option<DrawColor>)
    ensures
        r == draw_color(c),
{
    match c {
        ScreenColor::Default => None,
        ScreenColor::Indexed(i) => Some(DrawColor::Indexed(i)),
        ScreenColor::Rgb(r, g, b) => Some(DrawColor::Rgb(r, g, b)),
    }
}

/// The style a screen cell is drawn in.
pub fn cell_style(cell: &ScreenCell) -> (s: CellStyle)
    ensures
        s == cell_style_of(cell@),
{
    let fg = to_draw_color(cell.fg);
    let bg = to_draw_color(cell.bg);
    let (f, b) = if !cell.inverse {
        (fg, bg)
    } else {
        match (fg, bg) {
            (Some(x), Some(y)) => (Some(y), Some(x)),
            (Some(x), None) => (Some(DrawColor::Reset), Some(x)),
            (None, Some(y)) => (Some(y), Some(DrawColor::Reset)),
            (None, None) => (Some(DrawColor::Black), Some(DrawColor::Gray)),
        }
    };
    CellStyle {
        fg: f,
        bg: b,
        bold: cell.bold,
        dim: cell.dim,
        italic: cell.italic,
        underline: cell.underline,
        reversed: cell.inverse,
    }
}

/// The cells of a pane's screen to draw in its content box of `width` by
/// `height` cells: each cell that fits, row by row, at its own column and
/// row, with its text (a space for an empty cell) and style.
pub fn pane_cells_to_draw(lines: &Vec<ScreenLine>, width: u16, height: u16) -> (r: Vec<DrawnCell>)
    ensures
        drawn_models(r@) == drawn_rows(lines_model(lines@), width as int, height as int, 0),
{
    let ghost ls = lines_model(lines@);
    let mut out: Vec<DrawnCell> = Vec::new();
    let mut i: usize = 0;
    while i < lines.len() && i < height as usize
        invariant
            0 <= i <= lines@.len(),
            ls == lines_model(lines@),
            drawn_models(out@) + drawn_rows(ls, width as int, height as int, i as int) == drawn_rows(ls, width as int, height as int, 0),
        decreases lines@.len() - i,
    {
        let ghost acc = drawn_models(out@);
        let ghost l = ls[i as int];
        let cells = &lines[i].cells;
        let mut c: usize = 0;
        while c < cells.len() && c < width as usize
            invariant
                0 <= c <= cells@.len(),
                i < lines@.len(),
                i < height,
                cells@ == lines@[i as int].cells@,
                l == line_model(lines@[i as int]),
                drawn_models(out@) + drawn_row(l, i as int, width as int, c as int) == acc + drawn_row(l, i as int, width as int, 0),
            decreases cells@.len() - c,
        {
            let cell = &cells[c];
            let space = vec![' '];
            let symbol = if cell.has_contents { crate::text::owned(cell.text.as_str()) } else { string_of(&space) };
            proof {
                assert(space@ =~= seq![' ']);
            }
            let d = DrawnCell { col: c as u16, row: i as u16, symbol, style: cell_style(cell) };
            let ghost before = out@;
            out.push(d);
            proof {
                assert(l[c as int] == cell@);
                assert(drawn_models(out@) =~= drawn_models(before) + seq![drawn_cell(l[c as int], c as int, i as int)]);
                assert(drawn_models(out@) + drawn_row(l, i as int, width as int, c + 1) =~= drawn_models(before) + drawn_row(l, i as int, width as int, c as int));
            }
            c = c + 1;
        }
        proof {
            assert(drawn_row(l, i as int, width as int, c as int) == Seq::<DrawnModel>::empty());
            assert(drawn_models(out@) + Seq::<DrawnModel>::empty() =~= drawn_models(out@));
            assert(acc + drawn_rows(ls, width as int, height as int, i as int) =~= drawn_models(out@) + drawn_rows(ls, width as int, height as int, i + 1));
        }
        i = i + 1;
    }
    proof {
        assert(drawn_rows(ls, width as int, height as int, i as int) == Seq::<DrawnModel>::empty());
        assert(drawn_models(out@) + Seq::<DrawnModel>::empty() =~= drawn_models(out@));
    }
    out
}

} // verus!
