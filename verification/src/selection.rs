//! Selecting text with the mouse: where a click lands in a pane, which tab
//! title a click on the tab bar hits, and the text a selection covers.

use vstd::prelude::*;

use crate::base::{PaneId, TabId};
use crate::layout::Rect;
use crate::screen::{line_model, lines_model, CellModel, ScreenLine};
use crate::text::{push_char, push_str, string_of};
use crate::geometry::saturate;
use crate::tabs::RuntimeTabSummary;
use crate::ui::{PaneSelectionView, TAB_DIVIDER};

verus! {

broadcast use vstd::std_specs::vec::group_vec_axioms;

/// A cell of a pane's content, by row and column.
#[derive(Debug, Clone, Copy, PartialEq, Eq, Structural)]
pub struct SelectionPoint {
    pub row: u16,
    pub col: u16,
}

/// A selection in progress: where it started and where it ends now.
#[derive(Debug, Clone, Copy, PartialEq, Eq, Structural)]
pub struct SelectionState {
    pub pane_id: PaneId,
    pub anchor: SelectionPoint,
    pub focus: SelectionPoint,
}

/// A cell of a given pane.
#[derive(Debug, Clone, Copy, PartialEq, Eq, Structural)]
pub struct PaneSelectionTarget {
    pub pane_id: PaneId,
    pub point: SelectionPoint,
}

/// Point `a` comes no later than point `b`, row first.
pub open spec fn point_le(a: SelectionPoint, b: SelectionPoint) -> bool {
    a.row < b.row || (a.row == b.row && a.col <= b.col)
}

impl SelectionState {
    /// Nothing is selected: both ends are the same cell.
    pub fn is_empty(&self) -> (r: bool)
        ensures
            r == (self.anchor == self.focus),
    {
        self.anchor == self.focus
    }

    /// The two ends, the earlier first.
    pub fn normalized(&self) -> (r: (SelectionPoint, SelectionPoint))
        ensures
            point_le(self.anchor, self.focus) ==> r == (self.anchor, self.focus),
            !point_le(self.anchor, self.focus) ==> r == (self.focus, self.anchor),
    {
        if self.anchor.row < self.focus.row || (self.anchor.row == self.focus.row && self.anchor.col <= self.focus.col) {
            (self.anchor, self.focus)
        } else {
            (self.focus, self.anchor)
        }
    }

    /// How the selection shows in pane `pane_id`: nothing for another pane
    /// or an empty selection.
    pub fn view_for(&self, pane_id: PaneId) -> (r: Option<PaneSelectionView>)
        ensures
            (self.pane_id != pane_id || self.anchor == self.focus) ==> r is None,
            (self.pane_id == pane_id && self.anchor != self.focus) ==> (r matches Some(v) && {
                let (s, e) = if point_le(self.anchor, self.focus) {
                    (self.anchor, self.focus)
                } else {
                    (self.focus, self.anchor)
                };
                v.start == (s.row, s.col) && v.end == (e.row, e.col)
            }),
    {
        if self.pane_id != pane_id || self.is_empty() {
            return None;
        }
        let (start, end) = self.normalized();
        Some(PaneSelectionView { start: (start.row, start.col), end: (end.row, end.col) })
    }
}

/// The content of a pane drawn in `area`, inside its border and below its
/// title; none when the pane is too small.
pub open spec fn content_rect(area: Rect) -> Option<Rect> {
    if area.width <= 2 || area.height <= 2 {
        None
    } else {
        Some(
            Rect {
                x: crate::geometry::saturate(area.x + 1),
                y: crate::geometry::saturate(area.y + 2),
                width: (area.width - 2) as u16,
                height: (area.height - 2) as u16,
            },
        )
    }
}

pub fn pane_content_rect(area: Rect) -> (r: Option<Rect>)
    ensures
        r == content_rect(area),
{
    if area.width <= 2 || area.height <= 2 {
        return None;
    }
    Some(Rect {
        x: area.x.saturating_add(1),
        y: area.y.saturating_add(2),
        width: area.width - 2,
        height: area.height - 2,
    })
}

/// The cell of the pane's content at a screen position, if the position is
/// inside the content.
pub fn point_in_pane_content(area: Rect, pane_id: PaneId, column: u16, row: u16) -> (r: Option<PaneSelectionTarget>)
    ensures
        match content_rect(area) {
            None => r is None,
            Some(c) => if c.x <= column < crate::geometry::saturate(c.x + c.width) && c.y <= row
                < crate::geometry::saturate(c.y + c.height) {
                r == Some(
                    PaneSelectionTarget {
                        pane_id,
                        point: SelectionPoint { row: (row - c.y) as u16, col: (column - c.x) as u16 },
                    },
                )
            } else {
                r is None
            },
        },
{
    let rect = match pane_content_rect(area) {
        Some(r) => r,
        None => return None,
    };
    if column < rect.x || column >= rect.x.saturating_add(rect.width) {
        return None;
    }
    if row < rect.y || row >= rect.y.saturating_add(rect.height) {
        return None;
    }
    Some(PaneSelectionTarget { pane_id, point: SelectionPoint { row: row - rect.y, col: column - rect.x } })
}

/// `v` moved into `[lo, hi]`.
pub open spec fn clamped(v: u16, lo: u16, hi: u16) -> u16 {
    if v < lo {
        lo
    } else if v > hi {
        hi
    } else {
        v
    }
}

/// The cell of the pane's content nearest to a screen position, while
/// dragging a selection.
pub fn point_in_or_clamped_to_pane_content(area: Rect, pane_id: PaneId, column: u16, row: u16) -> (r: Option<PaneSelectionTarget>)
    ensures
        match content_rect(area) {
            None => r is None,
            Some(c) => {
                let max_x = crate::geometry::saturate(c.x + c.width - 1);
                let max_y = crate::geometry::saturate(c.y + c.height - 1);
                r == Some(
                    PaneSelectionTarget {
                        pane_id,
                        point: SelectionPoint {
                            row: (clamped(row, c.y, max_y) - c.y) as u16,
                            col: (clamped(column, c.x, max_x) - c.x) as u16,
                        },
                    },
                )
            },
        },
{
    let rect = match pane_content_rect(area) {
        Some(r) => r,
        None => return None,
    };
    let max_x = rect.x.saturating_add(rect.width - 1);
    let max_y = rect.y.saturating_add(rect.height - 1);
    let col = if column < rect.x { rect.x } else if column > max_x { max_x } else { column };
    let r = if row < rect.y { rect.y } else if row > max_y { max_y } else { row };
    Some(PaneSelectionTarget { pane_id, point: SelectionPoint { row: r - rect.y, col: col - rect.x } })
}

/// The text of cells `from` to `to` (not included) of a row: each cell's
/// text, a space for an empty cell, nothing for the second half of a wide
/// character.
pub open spec fn cells_text(cells: Seq<CellModel>, from: int, to: int) -> Seq<char>
    decreases to - from,
{
    if to <= from {
        seq![]
    } else {
        let c = cells[to - 1];
        cells_text(cells, from, to - 1) + if c.is_wide_continuation {
            seq![]
        } else if c.has_contents {
            c.text
        } else {
            seq![' ']
        }
    }
}

/// `s` without the spaces at its end.
pub open spec fn without_trailing_spaces(s: Seq<char>) -> Seq<char>
    decreases s.len(),
{
    if s.len() > 0 && s.last() == ' ' {
        without_trailing_spaces(s.drop_last())
    } else {
        s
    }
}

/// The selected text of row `row`, for a selection from `(sr, sc)` to
/// `(er, ec)`, the earlier first.
pub open spec fn row_selection(cells: Seq<CellModel>, row: int, sr: int, sc: int, er: int, ec: int) -> Seq<char> {
    let row_start = if row == sr {
        sc
    } else {
        0
    };
    if cells.len() == 0 || row_start >= cells.len() {
        seq![]
    } else {
        let row_end = if row == er {
            ec
        } else {
            cells.len() - 1
        };
        let bounded = if row_end <= cells.len() - 1 {
            row_end
        } else {
            cells.len() - 1
        };
        without_trailing_spaces(cells_text(cells, row_start, bounded + 1))
    }
}

/// The selected rows up to row `upto` (not included).
pub open spec fn selected_rows(lines: Seq<Seq<CellModel>>, sr: int, sc: int, er: int, ec: int, upto: int) -> Seq<Seq<char>>
    decreases upto - sr,
{
    if upto <= sr {
        seq![]
    } else {
        selected_rows(lines, sr, sc, er, ec, upto - 1).push(row_selection(lines[upto - 1], upto - 1, sr, sc, er, ec))
    }
}

/// Rows joined by line breaks.
pub open spec fn joined_lines(rows: Seq<Seq<char>>) -> Seq<char>
    decreases rows.len(),
{
    if rows.len() == 0 {
        seq![]
    } else if rows.len() == 1 {
        rows[0]
    } else {
        joined_lines(rows.drop_last()) + seq!['\n'] + rows.last()
    }
}

/// Rows joined by line breaks.
pub fn join_rows(rows: &Vec<String>) -> (r: String)
    ensures
        r@ == joined_lines(rows@.map_values(|s: String| s@)),
{
    let ghost m = rows@.map_values(|s: String| s@);
    let mut out = String::new();
    let mut i: usize = 0;
    while i < rows.len()
        invariant
            0 <= i <= rows@.len(),
            m == rows@.map_values(|s: String| s@),
            out@ == joined_lines(m.take(i as int)),
        decreases rows@.len() - i,
    {
        if i > 0 {
            push_char(&mut out, '\n');
        }
        push_str(&mut out, rows[i].as_str());
        proof {
            let t = m.take(i + 1);
            assert(t.drop_last() =~= m.take(i as int));
            assert(t.last() == rows@[i as int]@);
            if i == 0 {
                assert(out@ =~= t[0]);
            } else {
                assert(out@ =~= joined_lines(t.drop_last()) + seq!['\n'] + t.last());
            }
        }
        i = i + 1;
    }
    proof {
        assert(m.take(rows@.len() as int) =~= m);
    }
    out
}

/// The text a selection covers: its rows that the screen has, each cut to
/// the selection and stripped of trailing spaces, joined by line breaks.
pub open spec fn selection_text(lines: Seq<Seq<CellModel>>, start: (u16, u16), end: (u16, u16)) -> Seq<char> {
    let (s, e) = if start.0 < end.0 || (start.0 == end.0 && start.1 <= end.1) {
        (start, end)
    } else {
        (end, start)
    };
    let last = if e.0 + 1 <= lines.len() {
        e.0 + 1
    } else {
        lines.len() as int
    };
    joined_lines(selected_rows(lines, s.0 as int, s.1 as int, e.0 as int, e.1 as int, last))
}

/// The two ends of a selection, the earlier first.
pub fn normalize_selection(start: (u16, u16), end: (u16, u16)) -> (r: ((u16, u16), (u16, u16)))
    ensures
        (start.0 < end.0 || (start.0 == end.0 && start.1 <= end.1)) ==> r == (start, end),
        !(start.0 < end.0 || (start.0 == end.0 && start.1 <= end.1)) ==> r == (end, start),
{
    if start.0 < end.0 || (start.0 == end.0 && start.1 <= end.1) {
        (start, end)
    } else {
        (end, start)
    }
}

fn row_selection_text(line: &ScreenLine, row: u16, sr: u16, sc: u16, er: u16, ec: u16) -> (r: Vec<char>)
    ensures
        r@ == row_selection(line_model(*line), row as int, sr as int, sc as int, er as int, ec as int),
{
    let ghost cells = line_model(*line);
    let len = line.cells.len();
    let row_start = if row == sr { sc } else { 0 };
    if len == 0 || row_start as usize >= len {
        return Vec::new();
    }
    let row_end: usize = if row == er { ec as usize } else { len - 1 };
    let bounded = if row_end <= len - 1 { row_end } else { len - 1 };
    if row_start as usize > bounded {
        proof {
            assert(cells_text(cells, row_start as int, bounded + 1) =~= Seq::<char>::empty());
        }
        return Vec::new();
    }
    let mut text: Vec<char> = Vec::new();
    let mut col: usize = row_start as usize;
    while col <= bounded
        invariant
            row_start <= col <= bounded + 1,
            bounded < len,
            len == line.cells@.len(),
            cells == line_model(*line),
            text@ == cells_text(cells, row_start as int, col as int),
        decreases bounded + 1 - col,
    {
        let cell = &line.cells[col];
        proof {
            assert(cells[col as int] == cell@);
        }
        if !cell.is_wide_continuation {
            if cell.has_contents {
                let cs = crate::text::chars_of(cell.text.as_str());
                let mut k: usize = 0;
                let ghost before = text@;
                while k < cs.len()
                    invariant
                        0 <= k <= cs@.len(),
                        text@ == before + cs@.take(k as int),
                    decreases cs@.len() - k,
                {
                    text.push(cs[k]);
                    proof {
                        assert(text@ =~= before + cs@.take(k + 1));
                    }
                    k = k + 1;
                }
                proof {
                    assert(cs@.take(k as int) =~= cs@);
                }
            } else {
                text.push(' ');
            }
        }
        proof {
            assert(text@ =~= cells_text(cells, row_start as int, col + 1));
        }
        col = col + 1;
    }
    let mut n = text.len();
    proof {
        assert(text@.take(n as int) =~= text@);
    }
    while n > 0 && text[n - 1] == ' '
        invariant
            n <= text@.len(),
            without_trailing_spaces(text@) == without_trailing_spaces(text@.take(n as int)),
        decreases n,
    {
        proof {
            assert(text@.take(n as int).drop_last() =~= text@.take(n - 1));
        }
        n = n - 1;
    }
    proof {
        if n > 0 {
            assert(text@.take(n as int).last() == text@[n - 1]);
        }
    }
    let mut out: Vec<char> = Vec::new();
    let mut i: usize = 0;
    while i < n
        invariant
            0 <= i <= n,
            n <= text@.len(),
            out@ == text@.take(i as int),
        decreases n - i,
    {
        out.push(text[i]);
        proof {
            assert(out@ =~= text@.take(i + 1));
        }
        i = i + 1;
    }
    proof {
        assert(without_trailing_spaces(text@.take(n as int)) == text@.take(n as int));
    }
    out
}

/// The text a selection from `start` to `end` covers on a screen.
pub fn selection_text_from_lines(lines: &Vec<ScreenLine>, start: (u16, u16), end: (u16, u16)) -> (r: String)
    ensures
        r@ == selection_text(lines_model(lines@), start, end),
{
    let ghost ls = lines_model(lines@);
    let ((sr, sc), (er, ec)) = normalize_selection(start, end);
    let last: usize = if (er as usize) < lines.len() { er as usize + 1 } else { lines.len() };
    let mut out: Vec<char> = Vec::new();
    let mut row: usize = sr as usize;
    let ghost mut rows: Seq<Seq<char>> = seq![];
    if row < last {
        let first = row_selection_text(&lines[row], row as u16, sr, sc, er, ec);
        out = first;
        proof {
            rows = seq![out@];
            assert(ls[row as int] == line_model(lines@[row as int]));
            assert(selected_rows(ls, sr as int, sc as int, er as int, ec as int, sr as int) =~= Seq::<Seq<char>>::empty());
            assert(rows =~= selected_rows(ls, sr as int, sc as int, er as int, ec as int, sr + 1));
        }
        row = row + 1;
        while row < last
            invariant
                sr < row <= last,
                last <= lines@.len(),
                last <= er + 1,
                ls == lines_model(lines@),
                rows == selected_rows(ls, sr as int, sc as int, er as int, ec as int, row as int),
                rows.len() >= 1,
                out@ == joined_lines(rows),
            decreases last - row,
        {
            let piece = row_selection_text(&lines[row], row as u16, sr, sc, er, ec);
            out.push('\n');
            let mut k: usize = 0;
            let ghost before = out@;
            while k < piece.len()
                invariant
                    0 <= k <= piece@.len(),
                    out@ == before + piece@.take(k as int),
                decreases piece@.len() - k,
            {
                out.push(piece[k]);
                proof {
                    assert(out@ =~= before + piece@.take(k + 1));
                }
                k = k + 1;
            }
            proof {
                assert(piece@.take(k as int) =~= piece@);
                assert(ls[row as int] == line_model(lines@[row as int]));
                let nrows = rows.push(piece@);
                assert(nrows.drop_last() =~= rows);
                assert(out@ =~= joined_lines(nrows));
                rows = nrows;
            }
            row = row + 1;
        }
    } else {
        proof {
            assert(selected_rows(ls, sr as int, sc as int, er as int, ec as int, last as int) =~= Seq::<Seq<char>>::empty());
        }
    }
    string_of(&out)
}


/// The width of a title in the tab bar: its characters, at most 65535.
pub open spec fn title_cells(t: Seq<char>) -> int {
    if t.len() > 65535 {
        65535
    } else {
        t.len() as int
    }
}

/// The tab whose title covers `column` when the titles of `tabs` are laid
/// out from `x`, separated by dividers `div` wide; none on a divider.
pub open spec fn tab_hit(tabs: Seq<RuntimeTabSummary>, x: u16, column: u16, div: u16) -> Option<TabId>
    decreases tabs.len(),
{
    if tabs.len() == 0 {
        None
    } else {
        let end = saturate(x + title_cells(tabs[0].title@));
        if x <= column < end {
            Some(tabs[0].id)
        } else if tabs.len() > 1 && end <= column < saturate(end + div) {
            None
        } else if tabs.len() > 1 {
            tab_hit(tabs.drop_first(), saturate(end + div), column, div)
        } else {
            None
        }
    }
}

/// The tab whose title is under (`column`, `row`) in the tab bar, the top
/// row of a terminal `terminal_width` columns wide.
pub fn tab_id_at_position(tabs: &Vec<RuntimeTabSummary>, terminal_width: u16, column: u16, row: u16) -> (r: Option<TabId>)
    ensures
        r == (if row != 0 || tabs@.len() == 0 || column >= terminal_width {
            None
        } else {
            tab_hit(tabs@, 0, column, 3)
        }),
{
    if row != 0 || tabs.len() == 0 || column >= terminal_width {
        return None;
    }
    let divider = TAB_DIVIDER.unicode_len();
    proof {
        reveal_strlit(" | ");
    }
    let divider_width: u16 = if divider > 65535 { 65535 } else { divider as u16 };
    assert(divider_width == 3);
    let mut x: u16 = 0;
    let mut index: usize = 0;
    while index < tabs.len()
        invariant
            0 <= index <= tabs@.len(),
            tabs@.len() > 0,
            row == 0,
            column < terminal_width,
            divider_width == 3,
            index > 0 ==> tab_hit(tabs@, 0, column, 3) == tab_hit(tabs@.skip(index as int), x, column, 3),
            index == 0 ==> x == 0,
        decreases tabs@.len() - index,
    {
        let ghost rest = tabs@.skip(index as int);
        proof {
            if index == 0 {
                assert(tabs@.skip(0) =~= tabs@);
            }
            assert(rest[0] == tabs@[index as int]);
            assert(rest.drop_first() =~= tabs@.skip(index + 1));
        }
        let count = tabs[index].title.unicode_len();
        let title_width: u16 = if count > 65535 { 65535 } else { count as u16 };
        let end = x.saturating_add(title_width);
        proof {
            assert(end == saturate(x + title_cells(rest[0].title@)));
            assert(tab_hit(tabs@, 0, column, 3) == tab_hit(rest, x, column, 3));
        }
        if column >= x && column < end {
            return Some(tabs[index].id);
        }
        x = end;
        if index + 1 < tabs.len() {
            if column >= x && column < x.saturating_add(divider_width) {
                return None;
            }
            x = x.saturating_add(divider_width);
        }
        index = index + 1;
    }
    proof {
        assert(tabs@.skip(index as int).len() == 0);
    }
    None
}

/// The cell of a pane's content at a screen position, as
/// `point_in_pane_content` finds it.
pub open spec fn content_target(area: Rect, pane_id: PaneId, column: u16, row: u16) -> Option<PaneSelectionTarget> {
    match content_rect(area) {
        None => None,
        Some(c) => if c.x <= column < saturate(c.x + c.width) && c.y <= row < saturate(c.y + c.height) {
            Some(
                PaneSelectionTarget {
                    pane_id,
                    point: SelectionPoint { row: (row - c.y) as u16, col: (column - c.x) as u16 },
                },
            )
        } else {
            None
        },
    }
}

/// The first of the placements from index `i` on whose content holds the
/// position, with the cell there.
pub open spec fn first_target_from(ps: Seq<(PaneId, Rect, bool)>, i: int, column: u16, row: u16) -> Option<PaneSelectionTarget>
    decreases ps.len() - i,
{
    if i < 0 || i >= ps.len() {
        None
    } else {
        match content_target(ps[i].1, ps[i].0, column, row) {
            Some(t) => Some(t),
            None => first_target_from(ps, i + 1, column, row),
        }
    }
}

/// The area of the first placement of `pane` from index `i` on.
pub open spec fn first_area_from(ps: Seq<(PaneId, Rect, bool)>, i: int, pane: PaneId) -> Option<Rect>
    decreases ps.len() - i,
{
    if i < 0 || i >= ps.len() {
        None
    } else if ps[i].0 == pane {
        Some(ps[i].1)
    } else {
        first_area_from(ps, i + 1, pane)
    }
}

/// The pane cell under a screen position: the first of the placed panes
/// whose content holds it.
pub fn selection_target_at(placements: &Vec<(PaneId, Rect, bool)>, column: u16, row: u16) -> (r: Option<
    PaneSelectionTarget,
>)
    ensures
        r == first_target_from(placements@, 0, column, row),
{
    let mut i: usize = 0;
    while i < placements.len()
        invariant
            0 <= i <= placements@.len(),
            first_target_from(placements@, 0, column, row) == first_target_from(placements@, i as int, column, row),
        decreases placements@.len() - i,
    {
        let (pane_id, area, _) = placements[i];
        let hit = point_in_pane_content(area, pane_id, column, row);
        if hit.is_some() {
            return hit;
        }
        i = i + 1;
    }
    None
}

/// Where a drag moves the end of the selection to: the cell of the
/// selection's pane nearest to the position; none without a selection or
/// when its pane is not placed.
pub fn drag_selection_target(
    placements: &Vec<(PaneId, Rect, bool)>,
    selection: Option<SelectionState>,
    column: u16,
    row: u16,
) -> (r: Option<PaneSelectionTarget>)
    ensures
        r == (match selection {
            None => None,
            Some(s) => match first_area_from(placements@, 0, s.pane_id) {
                None => None,
                Some(area) => clamped_target(area, s.pane_id, column, row),
            },
        }),
{
    let sel = match selection {
        Some(s) => s,
        None => return None,
    };
    let mut i: usize = 0;
    while i < placements.len()
        invariant
            0 <= i <= placements@.len(),
            selection == Some(sel),
            first_area_from(placements@, 0, sel.pane_id) == first_area_from(placements@, i as int, sel.pane_id),
        decreases placements@.len() - i,
    {
        let (pane_id, area, _) = placements[i];
        if pane_id == sel.pane_id {
            proof {
                assert(placements@[i as int].1 == area);
                assert(first_area_from(placements@, i as int, sel.pane_id) == Some(area));
            }
            let t = point_in_or_clamped_to_pane_content(area, sel.pane_id, column, row);
            return t;
        }
        i = i + 1;
    }
    None
}

/// The cell of a pane's content nearest to a screen position, as
/// `point_in_or_clamped_to_pane_content` finds it.
pub open spec fn clamped_target(area: Rect, pane_id: PaneId, column: u16, row: u16) -> Option<PaneSelectionTarget> {
    match content_rect(area) {
        None => None,
        Some(c) => {
            let max_x = saturate(c.x + c.width - 1);
            let max_y = saturate(c.y + c.height - 1);
            Some(
                PaneSelectionTarget {
                    pane_id,
                    point: SelectionPoint {
                        row: (clamped(row, c.y, max_y) - c.y) as u16,
                        col: (clamped(column, c.x, max_x) - c.x) as u16,
                    },
                },
            )
        },
    }
}

/// What a press of the left mouse button does.
#[derive(Debug, Clone, Copy, PartialEq, Eq, Structural)]
pub enum PointerPress {
    /// Drop the selection and switch to this tab.
    ActivateTab(TabId),
    /// Focus the pane and start a selection at this cell.
    Select(PaneSelectionTarget),
    /// Drop the selection.
    Clear,
}

/// A left press at (`column`, `row`): a tab title in the tab bar switches
/// tabs, a cell of a pane's content starts a selection there, anything
/// else drops the selection.
pub fn pointer_press(
    tabs: &Vec<RuntimeTabSummary>,
    terminal_width: u16,
    placements: &Vec<(PaneId, Rect, bool)>,
    column: u16,
    row: u16,
) -> (r: PointerPress)
    ensures
        r == (if row == 0 && tabs@.len() > 0 && column < terminal_width && tab_hit(tabs@, 0, column, 3) is Some {
            PointerPress::ActivateTab(tab_hit(tabs@, 0, column, 3)->0)
        } else {
            match first_target_from(placements@, 0, column, row) {
                Some(t) => PointerPress::Select(t),
                None => PointerPress::Clear,
            }
        }),
{
    match tab_id_at_position(tabs, terminal_width, column, row) {
        Some(id) => PointerPress::ActivateTab(id),
        None => match selection_target_at(placements, column, row) {
            Some(t) => PointerPress::Select(t),
            None => PointerPress::Clear,
        },
    }
}

/// The text of a selection does not depend on which of its ends the drag
/// started from.
pub proof fn law_selection_ends_commute(lines: Seq<Seq<CellModel>>, a: (u16, u16), b: (u16, u16))
    ensures
        selection_text(lines, a, b) == selection_text(lines, b, a),
{
}

} // verus!
