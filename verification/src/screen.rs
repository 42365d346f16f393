//! The screen state of one terminal pane: the emulated screen, and the
//! history of whole screens kept for scrolling back through full-screen
//! programs and scroll regions.

use vstd::prelude::*;
use vstd::utf8::encode_scalar;

use crate::text::{char_utf8, chars_of, decimal_text, u64_text};
use crate::escape::{
    action_of, esc_next, esc_run, is_csi_final_byte, region_next, track_escape_byte, EscModel,
    EscapeSequenceState, ScreenMode,
};

verus! {

broadcast use vstd::std_specs::vec::group_vec_axioms;

/// The terminal emulator of the `vt100` crate.
#[verifier::external_type_specification]
#[verifier::external_body]
pub struct ExParser(vt100::Parser);

/// The colour of a cell.
#[derive(Debug, Clone, Copy, PartialEq, Eq, Structural)]
pub enum ScreenColor {
    Default,
    Indexed(u8),
    Rgb(u8, u8, u8),
}

impl Default for ScreenColor {
    fn default() -> (c: ScreenColor)
        ensures
            c == ScreenColor::Default,
    {
        ScreenColor::Default
    }
}

/// One cell of the screen.
#[derive(Debug, Clone, PartialEq, Eq)]
pub struct ScreenCell {
    pub text: String,
    pub has_contents: bool,
    pub is_wide: bool,
    pub is_wide_continuation: bool,
    pub fg: ScreenColor,
    pub bg: ScreenColor,
    pub dim: bool,
    pub bold: bool,
    pub italic: bool,
    pub underline: bool,
    pub inverse: bool,
}

/// One row of the screen.
#[derive(Debug, Clone, PartialEq, Eq)]
pub struct ScreenLine {
    pub cells: Vec<ScreenCell>,
}

/// The mathematical form of a cell.
pub struct CellModel {
    pub text: Seq<char>,
    pub has_contents: bool,
    pub is_wide: bool,
    pub is_wide_continuation: bool,
    pub fg: ScreenColor,
    pub bg: ScreenColor,
    pub dim: bool,
    pub bold: bool,
    pub italic: bool,
    pub underline: bool,
    pub inverse: bool,
}

impl View for ScreenCell {
    type V = CellModel;

    open spec fn view(&self) -> CellModel {
        CellModel {
            text: self.text@,
            has_contents: self.has_contents,
            is_wide: self.is_wide,
            is_wide_continuation: self.is_wide_continuation,
            fg: self.fg,
            bg: self.bg,
            dim: self.dim,
            bold: self.bold,
            italic: self.italic,
            underline: self.underline,
            inverse: self.inverse,
        }
    }
}

/// The mathematical form of a row.
pub open spec fn line_model(l: ScreenLine) -> Seq<CellModel> {
    l.cells@.map_values(|c: ScreenCell| c@)
}

/// The mathematical form of a whole screen.
pub open spec fn lines_model(ls: Seq<ScreenLine>) -> Seq<Seq<CellModel>> {
    ls.map_values(|l: ScreenLine| line_model(l))
}

/// No cell of the screen holds text.
pub open spec fn blank(s: Seq<Seq<CellModel>>) -> bool {
    forall|i: int, j: int| 0 <= i < s.len() && 0 <= j < s[i].len() ==> !(#[trigger] s[i][j]).has_contents
}

/// A row as text: each cell's text, a space for an empty cell.
pub open spec fn row_text(l: Seq<CellModel>) -> Seq<char>
    decreases l.len(),
{
    if l.len() == 0 {
        seq![]
    } else {
        row_text(l.drop_last()) + if l.last().has_contents {
            l.last().text
        } else {
            seq![' ']
        }
    }
}

fn cell_eq(a: &ScreenCell, b: &ScreenCell) -> (r: bool)
    ensures
        r == (a@ == b@),
{
    a.text == b.text && a.has_contents == b.has_contents && a.is_wide == b.is_wide
        && a.is_wide_continuation == b.is_wide_continuation && a.fg == b.fg && a.bg == b.bg
        && a.dim == b.dim && a.bold == b.bold && a.italic == b.italic && a.underline
        == b.underline && a.inverse == b.inverse
}

fn line_eq(a: &ScreenLine, b: &ScreenLine) -> (r: bool)
    ensures
        r == (line_model(*a) == line_model(*b)),
{
    if a.cells.len() != b.cells.len() {
        proof {
            assert(line_model(*a).len() != line_model(*b).len());
        }
        return false;
    }
    let mut i: usize = 0;
    while i < a.cells.len()
        invariant
            0 <= i <= a.cells@.len(),
            a.cells@.len() == b.cells@.len(),
            forall|j: int| 0 <= j < i ==> (#[trigger] a.cells@[j])@ == b.cells@[j]@,
        decreases a.cells@.len() - i,
    {
        if !cell_eq(&a.cells[i], &b.cells[i]) {
            proof {
                assert(line_model(*a)[i as int] != line_model(*b)[i as int]);
            }
            return false;
        }
        i = i + 1;
    }
    proof {
        assert(line_model(*a) =~= line_model(*b));
    }
    true
}

/// Whether two screens are the same.
fn lines_eq(a: &Vec<ScreenLine>, b: &Vec<ScreenLine>) -> (r: bool)
    ensures
        r == (lines_model(a@) == lines_model(b@)),
{
    if a.len() != b.len() {
        proof {
            assert(lines_model(a@).len() != lines_model(b@).len());
        }
        return false;
    }
    let mut i: usize = 0;
    while i < a.len()
        invariant
            0 <= i <= a@.len(),
            a@.len() == b@.len(),
            forall|j: int| 0 <= j < i ==> line_model(#[trigger] a@[j]) == line_model(b@[j]),
        decreases a@.len() - i,
    {
        if !line_eq(&a[i], &b[i]) {
            proof {
                assert(lines_model(a@)[i as int] != lines_model(b@)[i as int]);
            }
            return false;
        }
        i = i + 1;
    }
    proof {
        assert(lines_model(a@) =~= lines_model(b@));
    }
    true
}

fn clone_cell(c: &ScreenCell) -> (r: ScreenCell)
    ensures
        r@ == c@,
{
    ScreenCell {
        text: c.text.clone(),
        has_contents: c.has_contents,
        is_wide: c.is_wide,
        is_wide_continuation: c.is_wide_continuation,
        fg: c.fg,
        bg: c.bg,
        dim: c.dim,
        bold: c.bold,
        italic: c.italic,
        underline: c.underline,
        inverse: c.inverse,
    }
}

/// A copy of a screen.
pub fn clone_lines(ls: &Vec<ScreenLine>) -> (r: Vec<ScreenLine>)
    ensures
        lines_model(r@) == lines_model(ls@),
{
    let mut out: Vec<ScreenLine> = Vec::new();
    let mut i: usize = 0;
    while i < ls.len()
        invariant
            0 <= i <= ls@.len(),
            out@.len() == i,
            forall|j: int| 0 <= j < i ==> line_model(#[trigger] out@[j]) == line_model(ls@[j]),
        decreases ls@.len() - i,
    {
        let mut cells: Vec<ScreenCell> = Vec::new();
        let mut k: usize = 0;
        while k < ls[i].cells.len()
            invariant
                0 <= k <= ls@[i as int].cells@.len(),
                i < ls@.len(),
                cells@.len() == k,
                forall|j: int| 0 <= j < k ==> (#[trigger] cells@[j])@ == ls@[i as int].cells@[j]@,
            decreases ls@[i as int].cells@.len() - k,
        {
            cells.push(clone_cell(&ls[i].cells[k]));
            k = k + 1;
        }
        let line = ScreenLine { cells };
        proof {
            assert(line_model(line) =~= line_model(ls@[i as int]));
        }
        out.push(line);
        i = i + 1;
    }
    proof {
        assert(lines_model(out@) =~= lines_model(ls@));
    }
    out
}

/// Whether no cell of the screen holds text.
pub fn snapshot_is_blank(lines: &Vec<ScreenLine>) -> (r: bool)
    ensures
        r == blank(lines_model(lines@)),
{
    let ghost s = lines_model(lines@);
    let mut i: usize = 0;
    while i < lines.len()
        invariant
            0 <= i <= lines@.len(),
            s == lines_model(lines@),
            forall|a: int, b: int| 0 <= a < i && 0 <= b < s[a].len() ==> !(#[trigger] s[a][b]).has_contents,
        decreases lines@.len() - i,
    {
        let mut k: usize = 0;
        while k < lines[i].cells.len()
            invariant
                0 <= k <= lines@[i as int].cells@.len(),
                i < lines@.len(),
                s == lines_model(lines@),
                forall|b: int| 0 <= b < k ==> !(#[trigger] s[i as int][b]).has_contents,
            decreases lines@[i as int].cells@.len() - k,
        {
            if lines[i].cells[k].has_contents {
                proof {
                    assert(s[i as int][k as int].has_contents);
                }
                return false;
            }
            k = k + 1;
        }
        i = i + 1;
    }
    true
}

/// The rows of a screen as text.
pub fn snapshot_rows(lines: &Vec<ScreenLine>) -> (r: Vec<String>)
    ensures
        r@.len() == lines@.len(),
        forall|i: int| 0 <= i < r@.len() ==> (#[trigger] r@[i])@ == row_text(line_model(lines@[i])),
{
    let mut out: Vec<String> = Vec::new();
    let mut i: usize = 0;
    while i < lines.len()
        invariant
            0 <= i <= lines@.len(),
            out@.len() == i,
            forall|j: int| 0 <= j < i ==> (#[trigger] out@[j])@ == row_text(line_model(lines@[j])),
        decreases lines@.len() - i,
    {
        let ghost l = line_model(lines@[i as int]);
        let mut text = String::new();
        let mut k: usize = 0;
        while k < lines[i].cells.len()
            invariant
                0 <= k <= lines@[i as int].cells@.len(),
                i < lines@.len(),
                l == line_model(lines@[i as int]),
                text@ == row_text(l.take(k as int)),
            decreases lines@[i as int].cells@.len() - k,
        {
            let cell = &lines[i].cells[k];
            proof {
                assert(l.take(k + 1).drop_last() =~= l.take(k as int));
                assert(l.take(k + 1).last() == cell@);
            }
            if cell.has_contents {
                crate::text::push_str(&mut text, cell.text.as_str());
            } else {
                crate::text::push_char(&mut text, ' ');
            }
            proof {
                assert(text@ =~= row_text(l.take(k + 1)));
            }
            k = k + 1;
        }
        proof {
            assert(l.take(k as int) =~= l);
        }
        out.push(text);
        i = i + 1;
    }
    out
}

/// What of a screen's state the bytes of output decide alone: the escape
/// state and screen mode, whether a program's scroll region is set, how far
/// the capture of scroll-region output has come, whether each screen
/// changed since it was last kept, how many times the alternate screen was
/// considered for its history, and how far back each history is shown.
pub struct Control {
    pub esc: EscModel,
    pub mode: ScreenMode,
    pub region: bool,
    pub phase: NormalCapturePhase,
    pub normal_dirty: bool,
    pub alt_dirty: bool,
    pub count: int,
    pub normal_offset: int,
    pub alt_offset: int,
}

/// The control state after one byte of output on a screen of `rows` rows.
/// An escape that follows scroll-region output on the normal screen first
/// keeps that screen; leaving the alternate screen, or clearing the whole
/// alternate screen, keeps the alternate screen if it changed; entering the
/// alternate screen starts both histories afresh; a byte that draws marks
/// the screen it lands on as changed, and on the normal screen the
/// alternate history is shown from its newest screen again.
pub open spec fn control_step(c: Control, rows: u16, byte: u8) -> Control {
    let pre = c.mode == ScreenMode::Normal && !c.region && c.phase == NormalCapturePhase::PostRegion && byte == 0x1b
        && c.normal_dirty;
    let nd0 = if pre { false } else { c.normal_dirty };
    let ph0 = if pre { NormalCapturePhase::Inactive } else { c.phase };
    let next = esc_next(c.esc, c.mode, byte);
    let m2 = next.1;
    let rg0 = region_next(c.esc, c.region, rows, byte);
    let act = action_of(c.esc, c.mode, byte);
    let leave = c.mode == ScreenMode::Alternate && act.leave_alternate_screen;
    let considered = leave || (m2 == ScreenMode::Alternate && act.alternate_repaint_boundary);
    let due = considered && c.alt_dirty;
    let ad0 = if considered { false } else { c.alt_dirty };
    let count = if due { saturated_succ(c.count) } else { c.count };
    let entering = c.mode != ScreenMode::Alternate && m2 == ScreenMode::Alternate;
    let nd1 = if entering { false } else { nd0 };
    let ph1 = if entering { NormalCapturePhase::Inactive } else { ph0 };
    let rg1 = if entering { false } else { rg0 };
    let ad1 = if entering { false } else { ad0 };
    let no1 = if entering { 0 } else { c.normal_offset };
    let ao1 = if entering { 0 } else { c.alt_offset };
    if m2 == ScreenMode::Alternate {
        Control {
            esc: next.0,
            mode: m2,
            region: rg1,
            phase: ph1,
            normal_dirty: nd1,
            alt_dirty: ad1 || affects_frame(byte, c.esc),
            count,
            normal_offset: no1,
            alt_offset: ao1,
        }
    } else {
        let (nd2, ph2) = if rg1 {
            if draws(byte) { (true, NormalCapturePhase::InRegion) } else { (nd1, ph1) }
        } else if ph1 != NormalCapturePhase::Inactive {
            if draws(byte) { (true, NormalCapturePhase::PostRegion) } else { (nd1, ph1) }
        } else {
            (nd1, ph1)
        };
        Control {
            esc: next.0,
            mode: m2,
            region: rg1,
            phase: ph2,
            normal_dirty: nd2,
            alt_dirty: false,
            count,
            normal_offset: no1,
            alt_offset: 0,
        }
    }
}

/// The control state after the bytes, one by one.
pub open spec fn control_run(c: Control, rows: u16, bytes: Seq<u8>) -> Control
    decreases bytes.len(),
{
    if bytes.len() == 0 {
        c
    } else {
        control_step(control_run(c, rows, bytes.drop_last()), rows, bytes.last())
    }
}

/// Whether the normal screen is kept at the end of a chunk: scroll-region
/// output followed and changed it.
pub open spec fn normal_end_due(c: Control) -> bool {
    c.mode == ScreenMode::Normal && c.phase == NormalCapturePhase::PostRegion && c.normal_dirty
}

/// Whether the alternate screen is kept at the end of a chunk: it is shown
/// and changed.
pub open spec fn alt_end_due(c: Control) -> bool {
    c.mode == ScreenMode::Alternate && c.alt_dirty
}

/// The control state at the end of a chunk of output, once the screens due
/// are kept.
pub open spec fn chunk_end(c: Control) -> Control {
    Control {
        phase: if normal_end_due(c) { NormalCapturePhase::Inactive } else { c.phase },
        normal_dirty: if normal_end_due(c) { false } else { c.normal_dirty },
        alt_dirty: if alt_end_due(c) { false } else { c.alt_dirty },
        count: if alt_end_due(c) { saturated_succ(c.count) } else { c.count },
        ..c
    }
}

/// The history `mid` with the screen `shot` offered to it when `due`.
pub open spec fn end_kept(
    mid: Seq<Seq<Seq<CellModel>>>,
    due: bool,
    shot: Seq<Seq<CellModel>>,
    limit: int,
) -> Seq<Seq<Seq<CellModel>>> {
    if due {
        recorded(mid, shot, limit)
    } else {
        mid
    }
}

/// Offering a screen to a history within its limit never shortens it.
proof fn lemma_recorded_len(h: Seq<Seq<Seq<CellModel>>>, shot: Seq<Seq<CellModel>>, limit: int)
    requires
        h.len() <= limit,
    ensures
        recorded(h, shot, limit).len() >= h.len(),
{
}

/// The UTF-8 bytes of a text.
pub open spec fn utf8_of(s: Seq<char>) -> Seq<u8>
    decreases s.len(),
{
    if s.len() == 0 {
        seq![]
    } else {
        utf8_of(s.drop_last()) + encode_scalar(s.last() as u32)
    }
}

/// The bytes that move the cursor to row `row` and column `col`, counted
/// from zero: `ESC [ row+1 ; col+1 H`.
pub open spec fn cursor_to(row: nat, col: nat) -> Seq<u8> {
    seq![0x1bu8, 0x5bu8] + utf8_of(decimal_text(row + 1)) + seq![0x3bu8] + utf8_of(decimal_text(col + 1))
        + seq![0x48u8]
}

/// The bytes that draw the cell `c` of a row: its text, or for an empty
/// cell a move of the cursor one column right (`ESC [ C`), which leaves the
/// cell empty.
pub open spec fn cell_redraw(c: CellModel) -> Seq<u8> {
    if c.has_contents {
        utf8_of(c.text)
    } else {
        seq![0x1bu8, 0x5bu8, 0x43u8]
    }
}

/// The bytes that draw row `l` from column `c` on within `cols` columns:
/// each cell, skipping the second halves of double-width characters, and
/// stopping at a double-width character that no longer fits.
pub open spec fn row_redraw(l: Seq<CellModel>, cols: int, c: int) -> Seq<u8>
    decreases l.len() - c,
{
    if c < 0 || c >= l.len() || c >= cols {
        seq![]
    } else if l[c].is_wide_continuation {
        row_redraw(l, cols, c + 1)
    } else if l[c].is_wide && c + 1 >= cols {
        seq![]
    } else {
        cell_redraw(l[c]) + row_redraw(l, cols, c + 1)
    }
}

/// The bytes that draw the rows of `ls` from row `i` on that fit in `rows`
/// rows, each from its first column.
pub open spec fn rows_redraw(ls: Seq<Seq<CellModel>>, rows: int, cols: int, i: int) -> Seq<u8>
    decreases ls.len() - i,
{
    if i < 0 || i >= ls.len() || i >= rows {
        seq![]
    } else {
        cursor_to(i as nat, 0) + row_redraw(ls[i], cols, 0) + rows_redraw(ls, rows, cols, i + 1)
    }
}

/// The bytes that draw the screen `ls` on an empty screen of `rows` by
/// `cols` cells, then put the cursor back at `cursor`, pulled inside it.
pub open spec fn screen_redraw(ls: Seq<Seq<CellModel>>, rows: int, cols: int, cursor: (u16, u16)) -> Seq<u8> {
    rows_redraw(ls, rows, cols, 0) + cursor_to(
        (if cursor.0 < rows { cursor.0 as int } else { rows - 1 }) as nat,
        (if cursor.1 < cols { cursor.1 as int } else { cols - 1 }) as nat,
    )
}

/// Appends the UTF-8 bytes of `s` to `out`.
fn push_utf8(out: &mut Vec<u8>, s: &str)
    ensures
        final(out)@ == old(out)@ + utf8_of(s@),
{
    let cs = chars_of(s);
    let ghost start = out@;
    let mut i: usize = 0;
    while i < cs.len()
        invariant
            0 <= i <= cs@.len(),
            cs@ == s@,
            out@ == start + utf8_of(cs@.take(i as int)),
        decreases cs@.len() - i,
    {
        let bytes = char_utf8(cs[i]);
        let ghost before = out@;
        let mut j: usize = 0;
        while j < bytes.len()
            invariant
                0 <= j <= bytes@.len(),
                out@ == before + bytes@.take(j as int),
            decreases bytes@.len() - j,
        {
            out.push(bytes[j]);
            proof {
                assert(out@ =~= before + bytes@.take(j + 1));
            }
            j = j + 1;
        }
        proof {
            assert(bytes@.take(j as int) =~= bytes@);
            assert(cs@.take(i + 1).drop_last() =~= cs@.take(i as int));
            assert(cs@.take(i + 1).last() == cs@[i as int]);
            assert(out@ =~= start + utf8_of(cs@.take(i + 1)));
        }
        i = i + 1;
    }
    proof {
        assert(cs@.take(i as int) =~= cs@);
    }
}

/// Appends the bytes that move the cursor to (`row`, `col`).
fn push_cursor_to(out: &mut Vec<u8>, row: u16, col: u16)
    ensures
        final(out)@ == old(out)@ + cursor_to(row as nat, col as nat),
{
    let ghost start = out@;
    out.push(0x1b);
    out.push(0x5b);
    let r = u64_text(row as u64 + 1);
    push_utf8(out, r.as_str());
    out.push(0x3b);
    let c = u64_text(col as u64 + 1);
    push_utf8(out, c.as_str());
    out.push(0x48);
    proof {
        assert(out@ =~= start + cursor_to(row as nat, col as nat));
    }
}

/// The bytes that draw `lines` on an empty emulator of `rows` by `cols`
/// cells, clipped to it, and put the cursor back at `cursor`: the screen as
/// it was, to be shown again after the emulator is made narrower.
pub fn redraw_bytes(lines: &Vec<ScreenLine>, rows: u16, cols: u16, cursor: (u16, u16)) -> (r: Vec<u8>)
    requires
        rows >= 1,
        cols >= 1,
    ensures
        r@ == screen_redraw(lines_model(lines@), rows as int, cols as int, cursor),
{
    let ghost ls = lines_model(lines@);
    let mut out: Vec<u8> = Vec::new();
    let mut i: usize = 0;
    while i < lines.len() && i < rows as usize
        invariant
            0 <= i <= lines@.len(),
            ls == lines_model(lines@),
            out@ + rows_redraw(ls, rows as int, cols as int, i as int) == rows_redraw(ls, rows as int, cols as int, 0),
        decreases lines@.len() - i,
    {
        let ghost acc = out@;
        let ghost l = ls[i as int];
        push_cursor_to(&mut out, i as u16, 0);
        let cells = &lines[i].cells;
        let mut c: usize = 0;
        let mut stop = false;
        while !stop && c < cells.len() && c < cols as usize
            invariant
                0 <= c <= cells@.len(),
                stop ==> row_redraw(l, cols as int, c as int) == Seq::<u8>::empty(),
                i < lines@.len(),
                cells@ == lines@[i as int].cells@,
                l == line_model(lines@[i as int]),
                out@ + row_redraw(l, cols as int, c as int) == acc + cursor_to(i as nat, 0) + row_redraw(l, cols as int, 0),
            decreases cells@.len() - c + (if stop { 0int } else { 1int }),
        {
            let cell = &cells[c];
            proof {
                assert(l[c as int] == cell@);
            }
            if cell.is_wide_continuation {
                c = c + 1;
            } else if cell.is_wide && c + 1 >= cols as usize {
                stop = true;
            } else if cell.has_contents {
                let ghost before = out@;
                push_utf8(&mut out, cell.text.as_str());
                proof {
                    assert(before + row_redraw(l, cols as int, c as int) =~= out@ + row_redraw(l, cols as int, c + 1));
                }
                c = c + 1;
            } else {
                let ghost before = out@;
                out.push(0x1b);
                out.push(0x5b);
                out.push(0x43);
                proof {
                    assert(before + row_redraw(l, cols as int, c as int) =~= out@ + row_redraw(l, cols as int, c + 1));
                }
                c = c + 1;
            }
        }
        proof {
            assert(row_redraw(l, cols as int, c as int) == Seq::<u8>::empty());
            assert(out@ + Seq::<u8>::empty() =~= out@);
            assert(acc + rows_redraw(ls, rows as int, cols as int, i as int) =~= out@ + rows_redraw(ls, rows as int, cols as int, i + 1));
        }
        i = i + 1;
    }
    proof {
        assert(rows_redraw(ls, rows as int, cols as int, i as int) == Seq::<u8>::empty());
        assert(out@ + Seq::<u8>::empty() =~= out@);
    }
    let crow = if cursor.0 < rows { cursor.0 } else { rows - 1 };
    let ccol = if cursor.1 < cols { cursor.1 } else { cols - 1 };
    push_cursor_to(&mut out, crow, ccol);
    out
}

/// How far the capture of scroll-region output has come.
#[derive(Debug, Clone, Copy, PartialEq, Eq, Structural)]
pub enum NormalCapturePhase {
    Inactive,
    InRegion,
    PostRegion,
}

/// Why a capture of the alternate screen is considered.
#[derive(Debug, Clone, Copy, PartialEq, Eq, Structural)]
pub enum AlternateCaptureReason {
    EndOfChunk,
    LeaveAlternateScreen,
    Resize,
    RepaintBoundary,
}

/// A byte that draws on the screen: backspace, tab, line feed, carriage
/// return, printable ASCII, or part of a multibyte character.
pub open spec fn draws(byte: u8) -> bool {
    byte == 0x08 || byte == 0x09 || byte == 0x0a || byte == 0x0d || (0x20 <= byte <= 0x7e) || byte >= 0x80
}

/// A control sequence ending in this byte changes what the screen shows.
pub open spec fn csi_draws(byte: u8) -> bool {
    byte == 0x40 || (0x41 <= byte <= 0x48) || byte == 0x4a || byte == 0x4b || byte == 0x4c || byte == 0x4d
        || byte == 0x50 || byte == 0x53 || byte == 0x54 || byte == 0x58 || byte == 0x64 || byte == 0x66
        || byte == 0x68 || byte == 0x6c || byte == 0x6d || byte == 0x72
}

pub fn byte_affects_alternate_frame(byte: u8) -> (r: bool)
    ensures
        r == draws(byte),
{
    byte == 0x08 || byte == 0x09 || byte == 0x0a || byte == 0x0d || (0x20 <= byte && byte <= 0x7e) || byte >= 0x80
}

pub fn byte_affects_normal_snapshot(byte: u8) -> (r: bool)
    ensures
        r == draws(byte),
{
    byte_affects_alternate_frame(byte)
}

pub fn csi_final_byte_affects_alternate_frame(byte: u8) -> (r: bool)
    ensures
        r == csi_draws(byte),
{
    byte == 0x40 || (0x41 <= byte && byte <= 0x48) || byte == 0x4a || byte == 0x4b || byte == 0x4c || byte == 0x4d
        || byte == 0x50 || byte == 0x53 || byte == 0x54 || byte == 0x58 || byte == 0x64 || byte == 0x66
        || byte == 0x68 || byte == 0x6c || byte == 0x6d || byte == 0x72
}

/// The byte, read in escape state `state`, changes what the alternate
/// screen shows.
pub open spec fn affects_frame(byte: u8, state: EscModel) -> bool {
    match state {
        EscModel::Ground => draws(byte),
        EscModel::Escape => false,
        EscModel::Csi(_) => 0x40 <= byte <= 0x7e && csi_draws(byte),
    }
}

pub fn alternate_byte_affects_frame_in_state(byte: u8, state: &EscapeSequenceState) -> (r: bool)
    ensures
        r == affects_frame(byte, state@),
{
    match state {
        EscapeSequenceState::Ground => byte_affects_alternate_frame(byte),
        EscapeSequenceState::Escape => false,
        EscapeSequenceState::Csi(_) => is_csi_final_byte(byte) && csi_final_byte_affects_alternate_frame(byte),
    }
}

/// The screen of the `vt100` crate.
#[verifier::external_type_specification]
#[verifier::external_body]
pub struct ExScreen(vt100::Screen);

/// A cell of the `vt100` crate.
#[verifier::external_type_specification]
#[verifier::external_body]
pub struct ExCell(vt100::Cell);

/// The size (rows, columns) a `vt100::Parser` was made with or last resized
/// to. Only `Parser::new` and `Parser::set_size` set it (vt100's
/// `Grid::set_size` is reached from nowhere else), for both of its screens.
pub uninterp spec fn parser_dims(p: vt100::Parser) -> (u16, u16);

/// The scrollback position of the screen a `vt100::Parser` shows: how many
/// rows of its scrollback are in view (`Grid::scrollback_offset` of the
/// screen in use).
pub uninterp spec fn parser_scroll_offset(p: vt100::Parser) -> usize;

/// A cell as vt100 holds it: its text and attributes, as its accessors
/// give them.
pub struct RawCell {
    pub text: Seq<char>,
    pub has_contents: bool,
    pub is_wide: bool,
    pub is_wide_continuation: bool,
    pub fg: ScreenColor,
    pub bg: ScreenColor,
    pub bold: bool,
    pub italic: bool,
    pub underline: bool,
    pub inverse: bool,
}

/// What a `vt100::Cell` holds: the text and attributes its accessors read.
pub uninterp spec fn vt_cell(c: vt100::Cell) -> RawCell;

/// The cell in view at (`row`, `col`) of the screen a `vt100::Parser`
/// shows, if there is one: what the parser's grid of cells holds there.
pub uninterp spec fn parser_cell_at(p: vt100::Parser, row: u16, col: u16) -> Option<RawCell>;

/// The cursor position (row, column) of the screen a `vt100::Parser` shows.
pub uninterp spec fn parser_cursor(p: vt100::Parser) -> (u16, u16);

/// The text of the screen a `vt100::Parser` shows, as `Screen::contents`
/// writes it.
pub uninterp spec fn parser_text(p: vt100::Parser) -> Seq<char>;

/// The rows in view of the screen a `vt100::Parser` shows, as text of the
/// columns `start` to `start + width`, as `Screen::rows` writes them.
pub uninterp spec fn parser_row_texts(p: vt100::Parser, start: u16, width: u16) -> Seq<Seq<char>>;

/// The texts of a sequence of strings.
pub open spec fn texts_of(v: Seq<String>) -> Seq<Seq<char>> {
    v.map_values(|s: String| s@)
}

/// A vt100 cell as a pane shows it: the continuation half of a wide
/// character holds no text of its own, though vt100 flags it in the length
/// byte that `has_contents` reads; vt100 keeps no dim attribute.
pub open spec fn shown_cell(r: RawCell) -> CellModel {
    CellModel {
        text: r.text,
        has_contents: r.has_contents && !r.is_wide_continuation,
        is_wide: r.is_wide,
        is_wide_continuation: r.is_wide_continuation,
        fg: r.fg,
        bg: r.bg,
        dim: false,
        bold: r.bold,
        italic: r.italic,
        underline: r.underline,
        inverse: r.inverse,
    }
}

/// The cells in view of row `row` of the parser's screen, from column `c`
/// on and below `cols`, each as a pane shows it.
pub open spec fn live_row(p: vt100::Parser, row: u16, cols: u16, c: int) -> Seq<CellModel>
    decreases cols - c,
{
    if c < 0 || c >= cols {
        seq![]
    } else {
        match parser_cell_at(p, row, c as u16) {
            Some(x) => seq![shown_cell(x)] + live_row(p, row, cols, c + 1),
            None => live_row(p, row, cols, c + 1),
        }
    }
}

/// The rows in view of the parser's screen from row `r` on and below
/// `rows`, each of `cols` columns.
pub open spec fn live_rows(p: vt100::Parser, rows: u16, cols: u16, r: int) -> Seq<Seq<CellModel>>
    decreases rows - r,
{
    if r < 0 || r >= rows {
        seq![]
    } else {
        seq![live_row(p, r as u16, cols, 0)] + live_rows(p, rows, cols, r + 1)
    }
}

/// `vt100::Parser::new`: an emulator of `rows` by `cols` cells keeping
/// `scrollback_len` rows of scrollback, of that size and scrolled to the
/// bottom. Nothing else is claimed of its state.
#[verifier::external_body]
fn parser_new(rows: u16, cols: u16, scrollback_len: usize) -> (p: vt100::Parser)
    requires
        rows >= 1,
        cols >= 2,
    ensures
        parser_dims(p) == (rows, cols),
        parser_scroll_offset(p) == 0,
{
    vt100::Parser::new(rows, cols, scrollback_len)
}

/// `vt100::Parser::process`: feeds bytes to the emulator, which keeps its
/// size. Nothing else is claimed of its effect; new output may move the
/// scrollback position. vt100 places a double-width character past the last
/// column of a one-column screen and then fails, so the screen must be at
/// least two columns wide.
#[verifier::external_body]
fn parser_process(p: &mut vt100::Parser, bytes: &[u8])
    requires
        parser_dims(*old(p)).0 >= 1,
        parser_dims(*old(p)).1 >= 2,
    ensures
        parser_dims(*final(p)) == parser_dims(*old(p)),
{
    p.process(bytes)
}

/// `vt100::Parser::set_size`: resizes both screens of the emulator to `rows`
/// by `cols`, keeping the scrollback position. vt100 cuts each row to the
/// new width without clearing a double-width character whose second half is
/// cut off, and later writing over that cell fails; so the width may only
/// grow or stay. Nothing else is claimed of its effect.
#[verifier::external_body]
fn parser_set_size(p: &mut vt100::Parser, rows: u16, cols: u16)
    requires
        rows >= 1,
        cols >= parser_dims(*old(p)).1,
    ensures
        parser_dims(*final(p)) == (rows, cols),
        parser_scroll_offset(*final(p)) == parser_scroll_offset(*old(p)),
{
    p.set_size(rows, cols)
}

/// `vt100::Parser::set_scrollback`: scrolls the emulator's own scrollback
/// to at most `rows` rows back; the size stays. Nothing else is claimed of
/// its effect.
#[verifier::external_body]
fn parser_set_scrollback(p: &mut vt100::Parser, rows: usize)
    ensures
        parser_dims(*final(p)) == parser_dims(*old(p)),
        parser_scroll_offset(*final(p)) <= rows,
{
    p.set_scrollback(rows)
}

/// `vt100::Screen::size` of the parser's screen: the size the parser was
/// made with or last resized to.
#[verifier::external_body]
fn parser_size(p: &vt100::Parser) -> (r: (u16, u16))
    ensures
        r == parser_dims(*p),
{
    p.screen().size()
}

/// `vt100::Screen::cursor_position` of the parser's screen: (row, column)
/// of the cursor.
#[verifier::external_body]
fn parser_cursor_position(p: &vt100::Parser) -> (r: (u16, u16))
    ensures
        r == parser_cursor(*p),
{
    p.screen().cursor_position()
}

/// `vt100::Screen::contents` of the parser's screen: its text. vt100
/// counts the rows in view as the screen's rows less the scrollback
/// position, which must therefore not exceed them.
#[verifier::external_body]
fn parser_contents(p: &vt100::Parser) -> (r: String)
    requires
        parser_scroll_offset(*p) <= parser_dims(*p).0,
    ensures
        r@ == parser_text(*p),
{
    p.screen().contents()
}

/// `vt100::Screen::rows` of the parser's screen: the rows in view as text,
/// columns `start` to `start + width`. The scrollback position must not
/// exceed the screen's rows, as for `parser_contents`.
#[verifier::external_body]
fn parser_rows(p: &vt100::Parser, start: u16, width: u16) -> (r: Vec<String>)
    requires
        parser_scroll_offset(*p) <= parser_dims(*p).0,
    ensures
        texts_of(r@) == parser_row_texts(*p, start, width),
{
    p.screen().rows(start, width).collect()
}

/// `vt100::Screen::scrollback` of the parser's screen: its scrollback
/// position.
#[verifier::external_body]
fn parser_scrollback(p: &vt100::Parser) -> (r: usize)
    ensures
        r == parser_scroll_offset(*p),
{
    p.screen().scrollback()
}

/// `vt100::Screen::cell` of the parser's screen: the cell in view at a
/// position, if there is one. The scrollback position must not exceed the
/// screen's rows, as for `parser_contents`.
#[verifier::external_body]
fn parser_cell(p: &vt100::Parser, row: u16, col: u16) -> (r: Option<&vt100::Cell>)
    requires
        parser_scroll_offset(*p) <= parser_dims(*p).0,
    ensures
        r is Some <==> parser_cell_at(*p, row, col) is Some,
        r matches Some(c) ==> parser_cell_at(*p, row, col) == Some(vt_cell(*c)),
{
    p.screen().cell(row, col)
}

/// Pulls the emulator's scrollback position back to at most its rows, the
/// most that vt100 can show.
fn settle_scroll_offset(p: &mut vt100::Parser)
    ensures
        parser_dims(*final(p)) == parser_dims(*old(p)),
        parser_scroll_offset(*final(p)) <= parser_dims(*final(p)).0,
        parser_scroll_offset(*old(p)) <= parser_dims(*old(p)).0 ==> parser_scroll_offset(*final(p))
            == parser_scroll_offset(*old(p)),
{
    let (rows, _) = parser_size(p);
    if parser_scrollback(p) > rows as usize {
        parser_set_scrollback(p, rows as usize);
    }
}

/// `vt100::Cell::contents`: the text of the cell.
#[verifier::external_body]
fn cell_contents(c: &vt100::Cell) -> (r: String)
    ensures
        r@ == vt_cell(*c).text,
{
    c.contents()
}

/// `vt100::Cell::has_contents`.
#[verifier::external_body]
fn cell_has_contents(c: &vt100::Cell) -> (r: bool)
    ensures
        r == vt_cell(*c).has_contents,
{
    c.has_contents()
}

/// `vt100::Cell::is_wide`.
#[verifier::external_body]
fn cell_is_wide(c: &vt100::Cell) -> (r: bool)
    ensures
        r == vt_cell(*c).is_wide,
{
    c.is_wide()
}

/// `vt100::Cell::is_wide_continuation`.
#[verifier::external_body]
fn cell_is_wide_continuation(c: &vt100::Cell) -> (r: bool)
    ensures
        r == vt_cell(*c).is_wide_continuation,
{
    c.is_wide_continuation()
}

/// `vt100::Cell::fgcolor`, each colour variant carried over as it is.
#[verifier::external_body]
fn cell_fgcolor(c: &vt100::Cell) -> (r: ScreenColor)
    ensures
        r == vt_cell(*c).fg,
{
    match c.fgcolor() {
        vt100::Color::Default => ScreenColor::Default,
        vt100::Color::Idx(index) => ScreenColor::Indexed(index),
        vt100::Color::Rgb(r, g, b) => ScreenColor::Rgb(r, g, b),
    }
}

/// `vt100::Cell::bgcolor`, each colour variant carried over as it is.
#[verifier::external_body]
fn cell_bgcolor(c: &vt100::Cell) -> (r: ScreenColor)
    ensures
        r == vt_cell(*c).bg,
{
    match c.bgcolor() {
        vt100::Color::Default => ScreenColor::Default,
        vt100::Color::Idx(index) => ScreenColor::Indexed(index),
        vt100::Color::Rgb(r, g, b) => ScreenColor::Rgb(r, g, b),
    }
}

/// `vt100::Cell::bold`.
#[verifier::external_body]
fn cell_bold(c: &vt100::Cell) -> (r: bool)
    ensures
        r == vt_cell(*c).bold,
{
    c.bold()
}

/// `vt100::Cell::italic`.
#[verifier::external_body]
fn cell_italic(c: &vt100::Cell) -> (r: bool)
    ensures
        r == vt_cell(*c).italic,
{
    c.italic()
}

/// `vt100::Cell::underline`.
#[verifier::external_body]
fn cell_underline(c: &vt100::Cell) -> (r: bool)
    ensures
        r == vt_cell(*c).underline,
{
    c.underline()
}

/// `vt100::Cell::inverse`.
#[verifier::external_body]
fn cell_inverse(c: &vt100::Cell) -> (r: bool)
    ensures
        r == vt_cell(*c).inverse,
{
    c.inverse()
}

/// The escape state and screen after a run of bytes and one more.
proof fn lemma_esc_run_push(state: EscModel, mode: ScreenMode, a: Seq<u8>, x: u8)
    ensures
        esc_run(state, mode, a.push(x)) == esc_next(esc_run(state, mode, a).0, esc_run(state, mode, a).1, x),
    decreases a.len(),
{
    if a.len() == 0 {
        let n = esc_next(state, mode, x);
        assert(a.push(x).drop_first() =~= Seq::<u8>::empty());
        assert(a.push(x)[0] == x);
        assert(esc_run(n.0, n.1, Seq::<u8>::empty()) == (n.0, n.1));
        assert(esc_run(state, mode, a) == (state, mode));
        assert(esc_run(state, mode, a.push(x)) == esc_run(n.0, n.1, a.push(x).drop_first()));
    } else {
        let n = esc_next(state, mode, a[0]);
        assert(a.push(x).drop_first() =~= a.drop_first().push(x));
        assert(a.push(x)[0] == a[0]);
        lemma_esc_run_push(n.0, n.1, a.drop_first(), x);
        assert(esc_run(state, mode, a.push(x)) == esc_run(n.0, n.1, a.push(x).drop_first()));
        assert(esc_run(state, mode, a) == esc_run(n.0, n.1, a.drop_first()));
    }
}

/// A history with a screen added, trimmed to its `limit` newest screens.
pub open spec fn trimmed(h: Seq<Seq<Seq<CellModel>>>, limit: int) -> Seq<Seq<Seq<CellModel>>> {
    if h.len() > limit {
        h.skip(h.len() - limit)
    } else {
        h
    }
}

/// A capture leaves the history as it was, or adds one screen that holds
/// text and differs from the newest kept one, dropping the oldest beyond
/// the limit.
pub open spec fn captured(before: Seq<Seq<Seq<CellModel>>>, after: Seq<Seq<Seq<CellModel>>>, limit: int) -> bool {
    ||| after == before
    ||| exists|s: Seq<Seq<CellModel>>|
        !blank(s) && (before.len() > 0 ==> before.last() != s) && after == trimmed(#[trigger] before.push(s), limit)
}

/// The history after the screen `shot` was offered to it: the screen is
/// added, and the oldest beyond `limit` dropped, unless the history keeps
/// nothing, the screen is blank, or it is the newest kept one.
pub open spec fn recorded(h: Seq<Seq<Seq<CellModel>>>, shot: Seq<Seq<CellModel>>, limit: int) -> Seq<
    Seq<Seq<CellModel>>,
> {
    if limit <= 0 || blank(shot) || (h.len() > 0 && h.last() == shot) {
        h
    } else {
        trimmed(h.push(shot), limit)
    }
}

/// A screen as the emulator's cells are read: the continuation half of a
/// wide character holds no text, and no cell is dim.
pub open spec fn drawn(s: Seq<Seq<CellModel>>) -> bool {
    forall|i: int, j: int|
        0 <= i < s.len() && 0 <= j < s[i].len() ==> !((#[trigger] s[i][j]).has_contents
            && s[i][j].is_wide_continuation) && !s[i][j].dim
}

/// An offset into a history of `len` screens, pulled back to the oldest
/// kept screen.
pub open spec fn clamped_offset(offset: int, len: int) -> int {
    if offset <= max_offset(len) {
        offset
    } else {
        max_offset(len)
    }
}

/// One more than `n`, unless `n` is the largest `usize`.
pub open spec fn saturated_succ(n: int) -> int {
    if n < usize::MAX {
        n + 1
    } else {
        n
    }
}

/// Offering a screen to a history within its limit is a capture.
proof fn lemma_recorded_captured(h: Seq<Seq<Seq<CellModel>>>, shot: Seq<Seq<CellModel>>, limit: int)
    requires
        h.len() <= limit,
    ensures
        captured(h, recorded(h, shot, limit), limit),
        recorded(h, shot, limit).len() <= limit,
{
    if !(limit <= 0 || blank(shot) || (h.len() > 0 && h.last() == shot)) {
        assert(trimmed(h.push(shot), limit) == recorded(h, shot, limit));
    }
}

/// Every screen holds some text.
pub open spec fn all_hold_text(ss: Seq<Seq<Seq<CellModel>>>) -> bool {
    forall|k: int| 0 <= k < ss.len() ==> !blank(#[trigger] ss[k])
}

/// `after` is the history `before`, or an emptied one, with screens that
/// hold text added, of which the newest `limit` are kept.
pub open spec fn grown(before: Seq<Seq<Seq<CellModel>>>, after: Seq<Seq<Seq<CellModel>>>, limit: int) -> bool {
    exists|base: Seq<Seq<Seq<CellModel>>>, added: Seq<Seq<Seq<CellModel>>>|
        (base == before || base.len() == 0) && all_hold_text(added) && #[trigger] trimmed(base + added, limit) == after
}

/// A history within its limit has grown from itself.
proof fn lemma_grown_refl(h: Seq<Seq<Seq<CellModel>>>, limit: int)
    requires
        h.len() <= limit,
    ensures
        grown(h, h, limit),
{
    let added = Seq::<Seq<Seq<CellModel>>>::empty();
    assert(h + added =~= h);
    assert(trimmed(h + added, limit) == h);
}

/// An emptied history has grown from any.
proof fn lemma_grown_cleared(h: Seq<Seq<Seq<CellModel>>>, limit: int)
    requires
        limit >= 0,
    ensures
        grown(h, Seq::<Seq<Seq<CellModel>>>::empty(), limit),
{
    let base = Seq::<Seq<Seq<CellModel>>>::empty();
    let added = Seq::<Seq<Seq<CellModel>>>::empty();
    assert(base + added =~= base);
    assert(trimmed(base + added, limit) == base);
}

/// Trimming before adding a screen keeps what trimming after keeps.
proof fn lemma_trimmed_push(x: Seq<Seq<Seq<CellModel>>>, s: Seq<Seq<CellModel>>, limit: int)
    requires
        limit >= 0,
    ensures
        trimmed(trimmed(x, limit).push(s), limit) == trimmed(x.push(s), limit),
{
    if x.len() > limit {
        let t = x.skip(x.len() - limit);
        assert(t.push(s).skip(1) =~= x.push(s).skip(x.len() + 1 - limit));
    }
}

/// A capture after growth is growth.
proof fn lemma_grown_captured(
    a: Seq<Seq<Seq<CellModel>>>,
    b: Seq<Seq<Seq<CellModel>>>,
    c: Seq<Seq<Seq<CellModel>>>,
    limit: int,
)
    requires
        limit >= 0,
        grown(a, b, limit),
        captured(b, c, limit),
    ensures
        grown(a, c, limit),
{
    if c != b {
        let (base, added) = choose|base: Seq<Seq<Seq<CellModel>>>, added: Seq<Seq<Seq<CellModel>>>|
            (base == a || base.len() == 0) && all_hold_text(added) && #[trigger] trimmed(base + added, limit) == b;
        let s = choose|s: Seq<Seq<CellModel>>|
            !blank(s) && (b.len() > 0 ==> b.last() != s) && c == trimmed(#[trigger] b.push(s), limit);
        lemma_trimmed_push(base + added, s, limit);
        let more = added.push(s);
        assert((base + added).push(s) =~= base + more);
        assert(all_hold_text(more)) by {
            assert forall|k: int| 0 <= k < more.len() implies !blank(#[trigger] more[k]) by {
                if k < added.len() {
                    assert(more[k] == added[k]);
                }
            }
        }
        assert(trimmed(base + more, limit) == c);
    }
}

/// The emulated screen of one pane and its history of whole screens.
pub struct TerminalScreen {
    parser: vt100::Parser,
    normal_history_limit: usize,
    normal_history: Vec<Vec<ScreenLine>>,
    normal_scrollback: usize,
    normal_dirty_since_snapshot: bool,
    normal_capture_phase: NormalCapturePhase,
    custom_scroll_region_active: bool,
    alt_history_limit: usize,
    alt_history: Vec<Vec<ScreenLine>>,
    alt_scrollback: usize,
    alt_dirty_since_snapshot: bool,
    screen_mode: ScreenMode,
    escape_state: EscapeSequenceState,
    alternate_captures: usize,
}

/// The largest offset into a history of `len` screens.
pub open spec fn max_offset(len: int) -> int {
    if len > 0 {
        len - 1
    } else {
        0
    }
}

impl TerminalScreen {
    /// The screen a program draws on.
    pub closed spec fn mode(&self) -> ScreenMode {
        self.screen_mode
    }

    /// Where in an escape sequence the output stands.
    pub closed spec fn esc(&self) -> EscModel {
        self.escape_state@
    }

    /// The screens kept while on the normal screen, oldest first.
    pub closed spec fn normal_history(&self) -> Seq<Seq<Seq<CellModel>>> {
        self.normal_history@.map_values(|h: Vec<ScreenLine>| lines_model(h@))
    }

    /// The screens kept while on the alternate screen, oldest first.
    pub closed spec fn alt_history(&self) -> Seq<Seq<Seq<CellModel>>> {
        self.alt_history@.map_values(|h: Vec<ScreenLine>| lines_model(h@))
    }

    /// How many screens back the normal history is shown.
    pub closed spec fn normal_offset(&self) -> int {
        self.normal_scrollback as int
    }

    /// How many screens back the alternate history is shown.
    pub closed spec fn alt_offset(&self) -> int {
        self.alt_scrollback as int
    }

    /// How many screens each history keeps at most.
    pub closed spec fn history_limits(&self) -> (int, int) {
        (self.normal_history_limit as int, self.alt_history_limit as int)
    }

    /// How many times the alternate screen was considered for its history.
    pub closed spec fn capture_count(&self) -> int {
        self.alternate_captures as int
    }

    /// Whether the alternate screen changed since it was last considered.
    pub closed spec fn alt_dirty(&self) -> bool {
        self.alt_dirty_since_snapshot
    }

    /// Whether the normal screen changed since it was last kept.
    pub closed spec fn normal_dirty(&self) -> bool {
        self.normal_dirty_since_snapshot
    }

    /// Whether a program has set a scroll region of its own.
    pub closed spec fn scroll_region_active(&self) -> bool {
        self.custom_scroll_region_active
    }

    /// How far the capture of scroll-region output has come.
    pub closed spec fn normal_phase(&self) -> NormalCapturePhase {
        self.normal_capture_phase
    }

    /// The size of the emulated screen (rows, columns).
    pub closed spec fn dims(&self) -> (u16, u16) {
        parser_dims(self.parser)
    }

    /// What of the screen's state the bytes of output decide alone.
    pub closed spec fn control(&self) -> Control {
        Control {
            esc: self.escape_state@,
            mode: self.screen_mode,
            region: self.custom_scroll_region_active,
            phase: self.normal_capture_phase,
            normal_dirty: self.normal_dirty_since_snapshot,
            alt_dirty: self.alt_dirty_since_snapshot,
            count: self.alternate_captures as int,
            normal_offset: self.normal_scrollback as int,
            alt_offset: self.alt_scrollback as int,
        }
    }

    /// The cells the emulator shows, row by row, as a pane shows them.
    pub closed spec fn live_screen(&self) -> Seq<Seq<CellModel>> {
        live_rows(self.parser, parser_dims(self.parser).0, parser_dims(self.parser).1, 0)
    }

    /// The cursor position (row, column) of the emulator.
    pub closed spec fn cursor(&self) -> (u16, u16) {
        parser_cursor(self.parser)
    }

    /// The text the emulator shows.
    pub closed spec fn live_text(&self) -> Seq<char> {
        parser_text(self.parser)
    }

    /// The rows the emulator shows, as text across its width.
    pub closed spec fn live_row_texts(&self) -> Seq<Seq<char>> {
        parser_row_texts(self.parser, 0, parser_dims(self.parser).1)
    }

    /// How far the pane is scrolled back: through the kept screens when
    /// there are any, else through the emulator's own scrollback.
    pub open spec fn shown_offset(&self) -> int {
        if self.mode() == ScreenMode::Alternate {
            self.alt_offset()
        } else if self.normal_history().len() > 0 {
            self.normal_offset()
        } else {
            self.emulator_offset()
        }
    }

    /// How many rows of its own scrollback the emulator shows.
    pub closed spec fn emulator_offset(&self) -> int {
        parser_scroll_offset(self.parser) as int
    }

    /// The emulated screen has a row and two columns at least, each history
    /// keeps at most its limit, and its offset stays within it.
    pub open spec fn wf(&self) -> bool {
        &&& self.dims().0 >= 1
        &&& self.dims().1 >= 2
        &&& self.emulator_offset() <= self.dims().0
        &&& self.normal_history().len() <= self.history_limits().0
        &&& self.alt_history().len() <= self.history_limits().1
        &&& 0 <= self.normal_offset() <= max_offset(self.normal_history().len() as int)
        &&& 0 <= self.alt_offset() <= max_offset(self.alt_history().len() as int)
    }

    /// The kept screen shown instead of the live normal screen, if any.
    pub open spec fn normal_view(&self) -> Option<Seq<Seq<CellModel>>> {
        if self.mode() == ScreenMode::Normal && self.normal_offset() != 0 && self.normal_offset() + 1
            <= self.normal_history().len() {
            Some(self.normal_history()[self.normal_history().len() - (self.normal_offset() + 1)])
        } else {
            None
        }
    }

    /// The kept screen shown instead of the live alternate screen, if any.
    pub open spec fn alt_view(&self) -> Option<Seq<Seq<CellModel>>> {
        if self.mode() == ScreenMode::Alternate && self.alt_offset() != 0 && self.alt_offset() + 1
            <= self.alt_history().len() {
            Some(self.alt_history()[self.alt_history().len() - (self.alt_offset() + 1)])
        } else {
            None
        }
    }

    /// A screen of `rows` by `cols` cells (at least one row and two
    /// columns, the least on which the emulator can place a wide character),
    /// keeping `scrollback_len` rows of scrollback and as many screens of
    /// history.
    pub fn new(rows: u16, cols: u16, scrollback_len: usize) -> (s: Self)
        ensures
            s.wf(),
            s.dims() == (if rows >= 1 { rows } else { 1u16 }, if cols >= 2 { cols } else { 2u16 }),
            s.capture_count() == 0,
            s.mode() == ScreenMode::Normal,
            s.esc() == EscModel::Ground,
            s.normal_history().len() == 0,
            s.alt_history().len() == 0,
            s.history_limits() == (scrollback_len as int, scrollback_len as int),
    {
        let rows = if rows >= 1 { rows } else { 1 };
        let cols = if cols >= 2 { cols } else { 2 };
        let s = TerminalScreen {
            parser: parser_new(rows, cols, scrollback_len),
            normal_history_limit: scrollback_len,
            normal_history: Vec::new(),
            normal_scrollback: 0,
            normal_dirty_since_snapshot: false,
            normal_capture_phase: NormalCapturePhase::Inactive,
            custom_scroll_region_active: false,
            alt_history_limit: scrollback_len,
            alt_history: Vec::new(),
            alt_scrollback: 0,
            alt_dirty_since_snapshot: false,
            screen_mode: ScreenMode::Normal,
            escape_state: EscapeSequenceState::Ground,
            alternate_captures: 0,
        };
        proof {
            assert(s.normal_history() =~= Seq::<Seq<Seq<CellModel>>>::empty());
            assert(s.alt_history() =~= Seq::<Seq<Seq<CellModel>>>::empty());
        }
        s
    }

    /// (rows, columns) of the emulated screen.
    pub fn size(&self) -> (r: (u16, u16))
        ensures
            r == self.dims(),
    {
        parser_size(&self.parser)
    }

    /// (row, column) of the cursor.
    pub fn cursor_position(&self) -> (r: (u16, u16))
        ensures
            r == self.cursor(),
    {
        parser_cursor_position(&self.parser)
    }

    /// The text of the emulated screen.
    pub fn text_contents(&self) -> (r: String)
        requires
            self.wf(),
        ensures
            r@ == self.live_text(),
    {
        parser_contents(&self.parser)
    }

    /// How many times the alternate screen was considered for its history.
    pub fn alternate_capture_count(&self) -> (r: usize)
        ensures
            r == self.capture_count(),
    {
        self.alternate_captures
    }

    pub fn screen_mode(&self) -> (m: ScreenMode)
        ensures
            m == self.mode(),
    {
        self.screen_mode
    }

    pub fn is_alternate_screen(&self) -> (r: bool)
        ensures
            r == (self.mode() == ScreenMode::Alternate),
    {
        self.screen_mode == ScreenMode::Alternate
    }

    /// The cells of the live emulated screen, row by row.
    fn current_screen_lines(&self) -> (lines: Vec<ScreenLine>)
        requires
            self.wf(),
        ensures
            drawn(lines_model(lines@)),
            lines_model(lines@) == self.live_screen(),
    {
        let (rows, cols) = parser_size(&self.parser);
        let ghost p = self.parser;
        let mut lines: Vec<ScreenLine> = Vec::new();
        let mut row: u16 = 0;
        while row < rows
            invariant
                self.wf(),
                p == self.parser,
                (rows, cols) == parser_dims(p),
                row <= rows,
                drawn(lines_model(lines@)),
                lines_model(lines@) + live_rows(p, rows, cols, row as int) == live_rows(p, rows, cols, 0),
            decreases rows - row,
        {
            let mut cells: Vec<ScreenCell> = Vec::new();
            let mut col: u16 = 0;
            while col < cols
                invariant
                    self.wf(),
                    p == self.parser,
                    col <= cols,
                    forall|j: int|
                        0 <= j < cells@.len() ==> !((#[trigger] cells@[j]).has_contents
                            && cells@[j].is_wide_continuation) && !cells@[j].dim,
                    cells@.map_values(|c: ScreenCell| c@) + live_row(p, row, cols, col as int) == live_row(p, row, cols, 0),
                decreases cols - col,
            {
                let ghost before = cells@;
                match parser_cell(&self.parser, row, col) {
                    Some(cell) => {
                        // The continuation half of a wide character carries no
                        // text of its own, though vt100 flags it in the length
                        // byte that `has_contents` reads.
                        let continuation = cell_is_wide_continuation(cell);
                        cells.push(ScreenCell {
                        text: cell_contents(cell),
                        has_contents: cell_has_contents(cell) && !continuation,
                        is_wide: cell_is_wide(cell),
                        is_wide_continuation: continuation,
                        fg: cell_fgcolor(cell),
                        bg: cell_bgcolor(cell),
                        dim: false,
                        bold: cell_bold(cell),
                        italic: cell_italic(cell),
                        underline: cell_underline(cell),
                        inverse: cell_inverse(cell),
                    });
                    },
                    None => {},
                }
                proof {
                    assert(cells@.map_values(|c: ScreenCell| c@) + live_row(p, row, cols, col + 1) =~= before.map_values(|c: ScreenCell| c@) + live_row(p, row, cols, col as int));
                }
                col = col + 1;
            }
            let ghost before = lines@;
            let line = ScreenLine { cells };
            proof {
                assert(live_row(p, row, cols, col as int) == Seq::<CellModel>::empty());
                assert(line_model(line) =~= live_row(p, row, cols, 0));
            }
            lines.push(line);
            proof {
                assert(lines_model(lines@) + live_rows(p, rows, cols, row + 1) =~= lines_model(before) + live_rows(p, rows, cols, row as int));
                let m = lines_model(lines@);
                assert forall|i: int, j: int| 0 <= i < m.len() && 0 <= j < m[i].len() implies !((
                #[trigger] m[i][j]).has_contents && m[i][j].is_wide_continuation) && !m[i][j].dim by {
                    if i < before.len() {
                        assert(m[i] == lines_model(before)[i]);
                    } else {
                        assert(m[i][j] == cells@[j]@);
                    }
                }
            }
            row = row + 1;
        }
        proof {
            assert(live_rows(p, rows, cols, row as int) == Seq::<Seq<CellModel>>::empty());
            assert(lines_model(lines@) + Seq::<Seq<CellModel>>::empty() =~= lines_model(lines@));
        }
        lines
    }

    /// The kept normal screen shown, if any.
    fn normal_history_snapshot(&self) -> (r: Option<Vec<ScreenLine>>)
        ensures
            match r {
                Some(v) => self.normal_view() == Some(lines_model(v@)),
                None => self.normal_view() is None,
            },
    {
        if self.screen_mode != ScreenMode::Normal || self.normal_scrollback == 0 {
            return None;
        }
        let len = self.normal_history.len();
        if len <= self.normal_scrollback {
            return None;
        }
        let index = len - (self.normal_scrollback + 1);
        Some(clone_lines(&self.normal_history[index]))
    }

    /// The kept alternate screen shown, if any.
    fn alternate_history_snapshot(&self) -> (r: Option<Vec<ScreenLine>>)
        ensures
            match r {
                Some(v) => self.alt_view() == Some(lines_model(v@)),
                None => self.alt_view() is None,
            },
    {
        if self.screen_mode != ScreenMode::Alternate || self.alt_scrollback == 0 {
            return None;
        }
        let len = self.alt_history.len();
        if len <= self.alt_scrollback {
            return None;
        }
        let index = len - (self.alt_scrollback + 1);
        Some(clone_lines(&self.alt_history[index]))
    }

    /// What the pane shows: a kept screen when scrolled back, else the live
    /// screen.
    pub fn visible_lines(&self) -> (r: Vec<ScreenLine>)
        requires
            self.wf(),
        ensures
            self.normal_view() matches Some(v) ==> lines_model(r@) == v,
            self.normal_view() is None && self.alt_view() is Some ==> lines_model(r@) == self.alt_view()->0,
            self.normal_view() is None && self.alt_view() is None ==> lines_model(r@) == self.live_screen(),
    {
        match self.normal_history_snapshot() {
            Some(s) => s,
            None => match self.alternate_history_snapshot() {
                Some(s) => s,
                None => self.current_screen_lines(),
            },
        }
    }

    /// What the pane shows, row by row as text.
    pub fn visible_rows(&self) -> (r: Vec<String>)
        requires
            self.wf(),
        ensures
            self.normal_view() matches Some(v) ==> r@.len() == v.len() && forall|i: int|
                0 <= i < v.len() ==> (#[trigger] r@[i])@ == row_text(v[i]),
            self.normal_view() is None && self.alt_view() is Some ==> r@.len() == self.alt_view()->0.len()
                && forall|i: int| 0 <= i < self.alt_view()->0.len() ==> (#[trigger] r@[i])@ == row_text(self.alt_view()->0[i]),
            self.normal_view() is None && self.alt_view() is None ==> texts_of(r@) == self.live_row_texts(),
    {
        match self.normal_history_snapshot() {
            Some(s) => snapshot_rows(&s),
            None => match self.alternate_history_snapshot() {
                Some(s) => snapshot_rows(&s),
                None => {
                    let (_, cols) = self.size();
                    parser_rows(&self.parser, 0, cols)
                },
            },
        }
    }

    /// Whether a kept screen is shown instead of the live one.
    pub fn shows_history_snapshot(&self) -> (r: bool)
        ensures
            r == (self.normal_view() is Some || self.alt_view() is Some),
    {
        self.normal_history_snapshot().is_some() || self.alternate_history_snapshot().is_some()
    }

    /// How far the pane is scrolled back: through the kept screens when
    /// there are any, else through the emulator's own scrollback.
    pub fn scrollback(&self) -> (r: usize)
        ensures
            r == self.shown_offset(),
            self.mode() == ScreenMode::Normal && self.normal_history().len() > 0 ==> r == self.normal_offset(),
            self.mode() == ScreenMode::Alternate ==> r == self.alt_offset(),
            self.mode() == ScreenMode::Normal && self.normal_history().len() == 0 ==> r == self.emulator_offset(),
    {
        match self.screen_mode {
            ScreenMode::Normal => {
                if self.normal_history.len() > 0 {
                    self.normal_scrollback
                } else {
                    parser_scrollback(&self.parser)
                }
            },
            ScreenMode::Alternate => self.alt_scrollback,
        }
    }

    /// Whether a capture of the alternate screen for `reason` goes ahead: the
    /// screen changed since it was last considered, and it is shown or being
    /// left.
    pub open spec fn alt_capture_due(&self, reason: AlternateCaptureReason) -> bool {
        &&& self.alt_dirty()
        &&& (self.mode() == ScreenMode::Alternate || reason == AlternateCaptureReason::LeaveAlternateScreen)
    }

    /// Offers `snapshot` to the normal history: it is kept unless the
    /// history keeps nothing, it is blank, or it is the newest kept screen;
    /// the oldest screens beyond the limit are dropped, and the offset is
    /// pulled back within the history.
    #[verifier::loop_isolation(false)]
    fn record_normal_snapshot(&mut self, snapshot: Vec<ScreenLine>)
        requires
            old(self).wf(),
        ensures
            final(self).parser == old(self).parser,
            final(self).wf(),
            final(self).mode() == old(self).mode(),
            final(self).esc() == old(self).esc(),
            final(self).dims() == old(self).dims(),
            final(self).alt_history() == old(self).alt_history(),
            final(self).alt_offset() == old(self).alt_offset(),
            final(self).history_limits() == old(self).history_limits(),
            final(self).normal_history() == recorded(
                old(self).normal_history(),
                lines_model(snapshot@),
                old(self).history_limits().0,
            ),
            final(self).normal_offset() == clamped_offset(
                old(self).normal_offset(),
                final(self).normal_history().len() as int,
            ),
            final(self).custom_scroll_region_active == old(self).custom_scroll_region_active,
            final(self).normal_capture_phase == old(self).normal_capture_phase,
            final(self).normal_dirty_since_snapshot == old(self).normal_dirty_since_snapshot,
            final(self).alt_dirty_since_snapshot == old(self).alt_dirty_since_snapshot,
            final(self).alternate_captures == old(self).alternate_captures,
    {
        let ghost shot = lines_model(snapshot@);
        let ghost before = self.normal_history();
        if self.normal_history_limit == 0 {
            return;
        }
        if snapshot_is_blank(&snapshot) {
            return;
        }
        let n = self.normal_history.len();
        if n > 0 && lines_eq(&self.normal_history[n - 1], &snapshot) {
            proof {
                assert(before.last() == lines_model(old(self).normal_history@[n - 1]@));
            }
            return;
        }
        self.normal_history.push(snapshot);
        proof {
            assert(self.normal_history() =~= before.push(shot));
            if n > 0 {
                assert(before.last() == lines_model(old(self).normal_history@[n - 1]@));
            }
        }
        while self.normal_history.len() > self.normal_history_limit
            invariant
                self.normal_history_limit > 0,
                self.normal_history@.len() <= self.normal_history_limit + 1,
                self.parser == old(self).parser,
                self.screen_mode == old(self).screen_mode,
                self.escape_state == old(self).escape_state,
                self.alt_history == old(self).alt_history,
                self.alt_scrollback == old(self).alt_scrollback,
                self.normal_scrollback == old(self).normal_scrollback,
                self.normal_history_limit == old(self).normal_history_limit,
                self.alt_history_limit == old(self).alt_history_limit,
                self.custom_scroll_region_active == old(self).custom_scroll_region_active,
                self.normal_capture_phase == old(self).normal_capture_phase,
                self.normal_dirty_since_snapshot == old(self).normal_dirty_since_snapshot,
                self.alt_dirty_since_snapshot == old(self).alt_dirty_since_snapshot,
                self.alternate_captures == old(self).alternate_captures,
                old(self).wf(),
                self.normal_history() == trimmed(before.push(shot), self.normal_history_limit as int)
                    || self.normal_history() == before.push(shot),
                self.normal_history@.len() > self.normal_history_limit ==> self.normal_history() == before.push(shot),
                before.len() <= self.normal_history_limit,
            decreases self.normal_history@.len(),
        {
            self.normal_history.remove(0);
            proof {
                assert(self.normal_history() =~= before.push(shot).skip(1));
            }
        }
        let max = self.normal_history.len() - 1;
        if self.normal_scrollback > max {
            self.normal_scrollback = max;
        }
        proof {
            assert(self.normal_history() == trimmed(before.push(shot), self.normal_history_limit as int));
        }
    }

    /// Offers `snapshot` to the alternate history, as the normal one is
    /// offered its screens.
    #[verifier::loop_isolation(false)]
    fn record_alternate_snapshot(&mut self, snapshot: Vec<ScreenLine>)
        requires
            old(self).wf(),
        ensures
            final(self).parser == old(self).parser,
            final(self).wf(),
            final(self).mode() == old(self).mode(),
            final(self).esc() == old(self).esc(),
            final(self).dims() == old(self).dims(),
            final(self).normal_history() == old(self).normal_history(),
            final(self).normal_offset() == old(self).normal_offset(),
            final(self).history_limits() == old(self).history_limits(),
            final(self).alt_history() == recorded(
                old(self).alt_history(),
                lines_model(snapshot@),
                old(self).history_limits().1,
            ),
            final(self).alt_offset() == clamped_offset(
                old(self).alt_offset(),
                final(self).alt_history().len() as int,
            ),
            final(self).custom_scroll_region_active == old(self).custom_scroll_region_active,
            final(self).normal_capture_phase == old(self).normal_capture_phase,
            final(self).normal_dirty_since_snapshot == old(self).normal_dirty_since_snapshot,
            final(self).alt_dirty_since_snapshot == old(self).alt_dirty_since_snapshot,
            final(self).alternate_captures == old(self).alternate_captures,
    {
        let ghost shot = lines_model(snapshot@);
        let ghost before = self.alt_history();
        if self.alt_history_limit == 0 {
            return;
        }
        if snapshot_is_blank(&snapshot) {
            return;
        }
        let n = self.alt_history.len();
        if n > 0 && lines_eq(&self.alt_history[n - 1], &snapshot) {
            proof {
                assert(before.last() == lines_model(old(self).alt_history@[n - 1]@));
            }
            return;
        }
        self.alt_history.push(snapshot);
        proof {
            assert(self.alt_history() =~= before.push(shot));
            if n > 0 {
                assert(before.last() == lines_model(old(self).alt_history@[n - 1]@));
            }
        }
        while self.alt_history.len() > self.alt_history_limit
            invariant
                self.alt_history_limit > 0,
                self.alt_history@.len() <= self.alt_history_limit + 1,
                self.parser == old(self).parser,
                self.screen_mode == old(self).screen_mode,
                self.escape_state == old(self).escape_state,
                self.normal_history == old(self).normal_history,
                self.normal_scrollback == old(self).normal_scrollback,
                self.alt_scrollback == old(self).alt_scrollback,
                self.normal_history_limit == old(self).normal_history_limit,
                self.alt_history_limit == old(self).alt_history_limit,
                self.custom_scroll_region_active == old(self).custom_scroll_region_active,
                self.normal_capture_phase == old(self).normal_capture_phase,
                self.normal_dirty_since_snapshot == old(self).normal_dirty_since_snapshot,
                self.alt_dirty_since_snapshot == old(self).alt_dirty_since_snapshot,
                self.alternate_captures == old(self).alternate_captures,
                old(self).wf(),
                self.alt_history() == trimmed(before.push(shot), self.alt_history_limit as int)
                    || self.alt_history() == before.push(shot),
                self.alt_history@.len() > self.alt_history_limit ==> self.alt_history() == before.push(shot),
                before.len() <= self.alt_history_limit,
            decreases self.alt_history@.len(),
        {
            self.alt_history.remove(0);
            proof {
                assert(self.alt_history() =~= before.push(shot).skip(1));
            }
        }
        let max = self.alt_history.len() - 1;
        if self.alt_scrollback > max {
            self.alt_scrollback = max;
        }
        proof {
            assert(self.alt_history() == trimmed(before.push(shot), self.alt_history_limit as int));
        }
    }

    /// Keeps the live normal screen in the normal history, unless it is
    /// blank or the same as the newest kept one.
    fn capture_normal_snapshot(&mut self)
        requires
            old(self).wf(),
        ensures
            final(self).wf(),
            final(self).mode() == old(self).mode(),
            final(self).esc() == old(self).esc(),
            final(self).dims() == old(self).dims(),
            final(self).alt_history() == old(self).alt_history(),
            final(self).alt_offset() == old(self).alt_offset(),
            final(self).history_limits() == old(self).history_limits(),
            captured(old(self).normal_history(), final(self).normal_history(), old(self).history_limits().0),
            final(self).normal_history() == recorded(
                old(self).normal_history(),
                old(self).live_screen(),
                old(self).history_limits().0,
            ),
            final(self).parser == old(self).parser,
            final(self).normal_offset() == old(self).normal_offset(),
            final(self).normal_offset() == clamped_offset(
                old(self).normal_offset(),
                final(self).normal_history().len() as int,
            ),
            final(self).custom_scroll_region_active == old(self).custom_scroll_region_active,
            final(self).normal_capture_phase == old(self).normal_capture_phase,
            final(self).normal_dirty_since_snapshot == old(self).normal_dirty_since_snapshot,
            final(self).alt_dirty_since_snapshot == old(self).alt_dirty_since_snapshot,
            final(self).alternate_captures == old(self).alternate_captures,
    {
        if self.normal_history_limit == 0 {
            proof {
                let e = Seq::<Seq<CellModel>>::empty();
                assert(drawn(e));
                assert(recorded(old(self).normal_history(), e, 0) == self.normal_history());
            }
            return;
        }
        let snapshot = self.current_screen_lines();
        let ghost shot = lines_model(snapshot@);
        self.record_normal_snapshot(snapshot);
        proof {
            lemma_recorded_captured(old(self).normal_history(), shot, old(self).history_limits().0);
            lemma_recorded_len(old(self).normal_history(), shot, old(self).history_limits().0);
        }
    }

    /// Counts the consideration, then keeps the live alternate screen in the
    /// alternate history, unless it is blank or the same as the newest kept
    /// one.
    fn capture_alternate_snapshot(&mut self)
        requires
            old(self).wf(),
        ensures
            final(self).wf(),
            final(self).mode() == old(self).mode(),
            final(self).esc() == old(self).esc(),
            final(self).dims() == old(self).dims(),
            final(self).normal_history() == old(self).normal_history(),
            final(self).normal_offset() == old(self).normal_offset(),
            final(self).history_limits() == old(self).history_limits(),
            captured(old(self).alt_history(), final(self).alt_history(), old(self).history_limits().1),
            final(self).alt_history() == recorded(
                old(self).alt_history(),
                old(self).live_screen(),
                old(self).history_limits().1,
            ),
            final(self).parser == old(self).parser,
            final(self).alt_offset() == old(self).alt_offset(),
            final(self).alt_offset() == clamped_offset(
                old(self).alt_offset(),
                final(self).alt_history().len() as int,
            ),
            final(self).capture_count() == saturated_succ(old(self).capture_count()),
            final(self).custom_scroll_region_active == old(self).custom_scroll_region_active,
            final(self).normal_capture_phase == old(self).normal_capture_phase,
            final(self).normal_dirty_since_snapshot == old(self).normal_dirty_since_snapshot,
            final(self).alt_dirty_since_snapshot == old(self).alt_dirty_since_snapshot,
    {
        self.alternate_captures = self.alternate_captures.saturating_add(1);
        if self.alt_history_limit == 0 {
            proof {
                let e = Seq::<Seq<CellModel>>::empty();
                assert(drawn(e));
                assert(recorded(old(self).alt_history(), e, 0) == self.alt_history());
            }
            return;
        }
        let snapshot = self.current_screen_lines();
        let ghost shot = lines_model(snapshot@);
        self.record_alternate_snapshot(snapshot);
        proof {
            lemma_recorded_captured(old(self).alt_history(), shot, old(self).history_limits().1);
            lemma_recorded_len(old(self).alt_history(), shot, old(self).history_limits().1);
        }
    }

    /// Captures the alternate screen when it changed since the last capture,
    /// while on it or when leaving it.
    fn maybe_capture_alternate_snapshot(&mut self, reason: AlternateCaptureReason)
        requires
            old(self).wf(),
        ensures
            final(self).wf(),
            final(self).mode() == old(self).mode(),
            final(self).esc() == old(self).esc(),
            final(self).dims() == old(self).dims(),
            final(self).normal_history() == old(self).normal_history(),
            final(self).normal_offset() == old(self).normal_offset(),
            final(self).history_limits() == old(self).history_limits(),
            captured(old(self).alt_history(), final(self).alt_history(), old(self).history_limits().1),
            final(self).custom_scroll_region_active == old(self).custom_scroll_region_active,
            final(self).normal_capture_phase == old(self).normal_capture_phase,
            final(self).normal_dirty_since_snapshot == old(self).normal_dirty_since_snapshot,
            final(self).alt_dirty() == (old(self).alt_dirty() && !old(self).alt_capture_due(reason)),
            final(self).capture_count() == (if old(self).alt_capture_due(reason) {
                saturated_succ(old(self).capture_count())
            } else {
                old(self).capture_count()
            }),
            old(self).alt_capture_due(reason) ==> final(self).alt_history() == recorded(
                old(self).alt_history(),
                old(self).live_screen(),
                old(self).history_limits().1,
            ),
            final(self).parser == old(self).parser,
            final(self).alt_offset() == old(self).alt_offset(),
            final(self).alt_offset() == clamped_offset(
                old(self).alt_offset(),
                final(self).alt_history().len() as int,
            ),
            !old(self).alt_capture_due(reason) ==> final(self).alt_history() == old(self).alt_history(),
    {
        if !self.alt_dirty_since_snapshot {
            return;
        }
        if self.screen_mode != ScreenMode::Alternate && reason != AlternateCaptureReason::LeaveAlternateScreen {
            return;
        }
        self.capture_alternate_snapshot();
        self.alt_dirty_since_snapshot = false;
    }

    /// Follows a chunk of program output: the emulator takes every byte,
    /// the screen mode follows the escape sequences, and whole screens are
    /// kept for scrolling back.
    pub fn process_bytes(&mut self, bytes: &[u8])
        requires
            old(self).wf(),
        ensures
            final(self).wf(),
            (final(self).esc(), final(self).mode()) == esc_run(old(self).esc(), old(self).mode(), bytes@),
            final(self).dims() == old(self).dims(),
            final(self).history_limits() == old(self).history_limits(),
            grown(old(self).normal_history(), final(self).normal_history(), old(self).history_limits().0),
            grown(old(self).alt_history(), final(self).alt_history(), old(self).history_limits().1),
            final(self).control() == chunk_end(control_run(old(self).control(), old(self).dims().0, bytes@)),
            exists|mid: Seq<Seq<Seq<CellModel>>>|
                grown(old(self).normal_history(), mid, old(self).history_limits().0) && #[trigger] end_kept(
                    mid,
                    normal_end_due(control_run(old(self).control(), old(self).dims().0, bytes@)),
                    final(self).live_screen(),
                    old(self).history_limits().0,
                ) == final(self).normal_history(),
            exists|mid: Seq<Seq<Seq<CellModel>>>|
                grown(old(self).alt_history(), mid, old(self).history_limits().1) && #[trigger] end_kept(
                    mid,
                    alt_end_due(control_run(old(self).control(), old(self).dims().0, bytes@)),
                    final(self).live_screen(),
                    old(self).history_limits().1,
                ) == final(self).alt_history(),
    {
        let ghost start_control = self.control();
        let ghost rows0 = self.dims().0;
        let ghost start_esc = self.esc();
        let ghost start_mode = self.mode();
        let ghost start_normal = self.normal_history();
        let ghost start_alt = self.alt_history();
        proof {
            assert(bytes@.take(0) =~= Seq::<u8>::empty());
            lemma_grown_refl(start_normal, self.history_limits().0);
            lemma_grown_refl(start_alt, self.history_limits().1);
        }
        let mut i: usize = 0;
        while i < bytes.len()
            invariant
                0 <= i <= bytes@.len(),
                self.wf(),
                (self.esc(), self.mode()) == esc_run(start_esc, start_mode, bytes@.take(i as int)),
                self.history_limits() == old(self).history_limits(),
                self.dims() == old(self).dims(),
                start_normal == old(self).normal_history(),
                start_alt == old(self).alt_history(),
                grown(start_normal, self.normal_history(), self.history_limits().0),
                grown(start_alt, self.alt_history(), self.history_limits().1),
                start_control == old(self).control(),
                rows0 == old(self).dims().0,
                self.control() == control_run(start_control, rows0, bytes@.take(i as int)),
            decreases bytes@.len() - i,
        {
            let byte = bytes[i];
            let ghost c = self.control();
            let ghost before_esc = self.esc();
            let ghost before_mode = self.mode();
            let affects = alternate_byte_affects_frame_in_state(byte, &self.escape_state);
            if self.screen_mode == ScreenMode::Normal && !self.custom_scroll_region_active
                && self.normal_capture_phase == NormalCapturePhase::PostRegion && byte == 0x1b
                && self.normal_dirty_since_snapshot {
                let ghost h0 = self.normal_history();
                self.capture_normal_snapshot();
                proof {
                    lemma_grown_captured(start_normal, h0, self.normal_history(), self.history_limits().0);
                }
                self.normal_dirty_since_snapshot = false;
                self.normal_capture_phase = NormalCapturePhase::Inactive;
            }
            let previous_mode = self.screen_mode;
            let rows = self.size().0;
            let action = track_escape_byte(
                &mut self.escape_state,
                &mut self.screen_mode,
                &mut self.custom_scroll_region_active,
                rows,
                byte,
            );
            proof {
                assert((self.esc(), self.mode()) == esc_next(before_esc, before_mode, byte));
                lemma_esc_run_push(start_esc, start_mode, bytes@.take(i as int), byte);
                assert(bytes@.take(i as int).push(byte) =~= bytes@.take(i + 1));
            }
            let ghost a0 = self.alt_history();
            if previous_mode == ScreenMode::Alternate && action.leave_alternate_screen {
                self.maybe_capture_alternate_snapshot(AlternateCaptureReason::LeaveAlternateScreen);
            } else if self.screen_mode == ScreenMode::Alternate && action.alternate_repaint_boundary {
                self.maybe_capture_alternate_snapshot(AlternateCaptureReason::RepaintBoundary);
            }
            proof {
                if self.alt_history() != a0 {
                    lemma_grown_captured(start_alt, a0, self.alt_history(), self.history_limits().1);
                }
            }
            let one: Vec<u8> = vec![byte];
            parser_process(&mut self.parser, one.as_slice());
            settle_scroll_offset(&mut self.parser);
            if previous_mode != ScreenMode::Alternate && self.screen_mode == ScreenMode::Alternate {
                self.normal_history.clear();
                self.normal_scrollback = 0;
                self.normal_dirty_since_snapshot = false;
                self.normal_capture_phase = NormalCapturePhase::Inactive;
                self.custom_scroll_region_active = false;
                self.alt_history.clear();
                self.alt_scrollback = 0;
                self.alt_dirty_since_snapshot = false;
                proof {
                    assert(self.normal_history() =~= Seq::<Seq<Seq<CellModel>>>::empty());
                    assert(self.alt_history() =~= Seq::<Seq<Seq<CellModel>>>::empty());
                    lemma_grown_cleared(start_normal, self.history_limits().0);
                    lemma_grown_cleared(start_alt, self.history_limits().1);
                }
            }
            if self.screen_mode == ScreenMode::Alternate {
                if affects {
                    self.alt_dirty_since_snapshot = true;
                }
            } else {
                self.alt_scrollback = 0;
                self.alt_dirty_since_snapshot = false;
                if self.custom_scroll_region_active {
                    if byte_affects_normal_snapshot(byte) {
                        self.normal_dirty_since_snapshot = true;
                        self.normal_capture_phase = NormalCapturePhase::InRegion;
                    }
                } else if self.normal_capture_phase != NormalCapturePhase::Inactive {
                    if byte_affects_normal_snapshot(byte) {
                        self.normal_dirty_since_snapshot = true;
                        self.normal_capture_phase = NormalCapturePhase::PostRegion;
                    }
                }
            }
            proof {
                assert(self.control() == control_step(c, rows0, byte));
                assert(bytes@.take(i + 1).drop_last() =~= bytes@.take(i as int));
                assert(bytes@.take(i + 1).last() == byte);
            }
            i = i + 1;
        }
        proof {
            assert(bytes@.take(i as int) =~= bytes@);
        }
        let ghost c_end = self.control();
        let ghost mid_normal = self.normal_history();
        let ghost mid_alt = self.alt_history();
        if self.screen_mode == ScreenMode::Normal && self.normal_capture_phase == NormalCapturePhase::PostRegion
            && self.normal_dirty_since_snapshot {
            let ghost h0 = self.normal_history();
            self.capture_normal_snapshot();
            proof {
                lemma_grown_captured(start_normal, h0, self.normal_history(), self.history_limits().0);
            }
            self.normal_dirty_since_snapshot = false;
            self.normal_capture_phase = NormalCapturePhase::Inactive;
        }
        let ghost a0 = self.alt_history();
        self.maybe_capture_alternate_snapshot(AlternateCaptureReason::EndOfChunk);
        proof {
            lemma_grown_captured(start_alt, a0, self.alt_history(), self.history_limits().1);
            assert(end_kept(mid_normal, normal_end_due(c_end), self.live_screen(), self.history_limits().0) == self.normal_history());
            assert(end_kept(mid_alt, alt_end_due(c_end), self.live_screen(), self.history_limits().1) == self.alt_history());
        }
    }

    /// Resizes the emulated screen (at least one row and two columns); the
    /// scroll region ends, and pending history is kept first.
    pub fn resize(&mut self, rows: u16, cols: u16)
        requires
            old(self).wf(),
        ensures
            final(self).wf(),
            final(self).mode() == old(self).mode(),
            final(self).esc() == old(self).esc(),
            final(self).history_limits() == old(self).history_limits(),
            captured(old(self).normal_history(), final(self).normal_history(), old(self).history_limits().0),
            captured(old(self).alt_history(), final(self).alt_history(), old(self).history_limits().1),
            final(self).dims() == (if rows >= 1 { rows } else { 1u16 }, if cols >= 2 { cols } else { 2u16 }),
            !final(self).scroll_region_active(),
            final(self).normal_dirty() == old(self).normal_dirty(),
            final(self).normal_phase() == (if old(self).mode() == ScreenMode::Normal {
                NormalCapturePhase::Inactive
            } else {
                old(self).normal_phase()
            }),
            old(self).mode() == ScreenMode::Normal && old(self).normal_phase() != NormalCapturePhase::Inactive
                ==> final(self).normal_history() == recorded(
                old(self).normal_history(),
                final(self).live_screen(),
                old(self).history_limits().0,
            ),
            !(old(self).mode() == ScreenMode::Normal && old(self).normal_phase() != NormalCapturePhase::Inactive)
                ==> final(self).normal_history() == old(self).normal_history(),
            final(self).normal_offset() == clamped_offset(
                old(self).normal_offset(),
                final(self).normal_history().len() as int,
            ),
            final(self).alt_dirty() == (old(self).alt_dirty() && old(self).mode() == ScreenMode::Normal),
            final(self).capture_count() == (if old(self).mode() == ScreenMode::Alternate && old(self).alt_dirty() {
                saturated_succ(old(self).capture_count())
            } else {
                old(self).capture_count()
            }),
            old(self).mode() == ScreenMode::Alternate && old(self).alt_dirty() ==> final(self).alt_history()
                == recorded(old(self).alt_history(), final(self).live_screen(), old(self).history_limits().1),
            !(old(self).mode() == ScreenMode::Alternate && old(self).alt_dirty()) ==> final(self).alt_history()
                == old(self).alt_history(),
            final(self).alt_offset() == clamped_offset(
                old(self).alt_offset(),
                final(self).alt_history().len() as int,
            ),
    {
        let rows = if rows >= 1 { rows } else { 1 };
        let cols = if cols >= 2 { cols } else { 2 };
        let (_, old_cols) = parser_size(&self.parser);
        if cols >= old_cols {
            parser_set_size(&mut self.parser, rows, cols);
        } else {
            // vt100 cannot narrow a screen in place (a double-width character
            // cut in half there breaks later writes), so a new emulator of
            // the new size is given the screen as it was, clipped to it.
            parser_set_scrollback(&mut self.parser, 0);
            let lines = self.current_screen_lines();
            let cursor = parser_cursor_position(&self.parser);
            let mut fresh = parser_new(rows, cols, self.normal_history_limit);
            if self.screen_mode == ScreenMode::Alternate {
                let enter: Vec<u8> = vec![0x1b, 0x5b, 0x3f, 0x31, 0x30, 0x34, 0x39, 0x68];
                parser_process(&mut fresh, enter.as_slice());
            }
            let bytes = redraw_bytes(&lines, rows, cols, cursor);
            parser_process(&mut fresh, bytes.as_slice());
            self.parser = fresh;
        }
        settle_scroll_offset(&mut self.parser);
        self.custom_scroll_region_active = false;
        if self.screen_mode == ScreenMode::Normal && self.normal_capture_phase != NormalCapturePhase::Inactive {
            self.capture_normal_snapshot();
            self.normal_capture_phase = NormalCapturePhase::Inactive;
        }
        if self.screen_mode == ScreenMode::Alternate {
            self.maybe_capture_alternate_snapshot(AlternateCaptureReason::Resize);
        }
    }

    /// Scrolls back `rows` screens through the kept screens when there are
    /// any, at most to the oldest; else `rows` rows through the emulator's
    /// scrollback.
    pub fn set_scrollback(&mut self, rows: usize)
        requires
            old(self).wf(),
        ensures
            final(self).wf(),
            final(self).mode() == old(self).mode(),
            final(self).esc() == old(self).esc(),
            final(self).dims() == old(self).dims(),
            final(self).normal_history() == old(self).normal_history(),
            final(self).alt_history() == old(self).alt_history(),
            final(self).history_limits() == old(self).history_limits(),
            old(self).mode() == ScreenMode::Normal && old(self).normal_history().len() > 0 ==> final(self).normal_offset()
                == (if rows <= old(self).normal_history().len() - 1 {
                    rows as int
                } else {
                    old(self).normal_history().len() - 1
                }),
            old(self).mode() == ScreenMode::Normal ==> final(self).alt_offset() == old(self).alt_offset(),
            old(self).mode() == ScreenMode::Alternate ==> final(self).alt_offset() == (if rows
                <= max_offset(old(self).alt_history().len() as int) {
                rows as int
            } else {
                max_offset(old(self).alt_history().len() as int)
            }),
            old(self).mode() == ScreenMode::Alternate ==> final(self).normal_offset() == old(self).normal_offset(),
            old(self).mode() == ScreenMode::Normal && old(self).normal_history().len() == 0 ==> final(self).normal_offset() == old(self).normal_offset()
                && final(self).emulator_offset() <= rows && final(self).emulator_offset() <= final(self).dims().0,
            old(self).mode() == ScreenMode::Normal && old(self).normal_history().len() > 0 ==> final(self).emulator_offset() == 0,
    {
        match self.screen_mode {
            ScreenMode::Normal => {
                if self.normal_history.len() > 0 {
                    let max = self.normal_history.len() - 1;
                    self.normal_scrollback = if rows <= max { rows } else { max };
                    parser_set_scrollback(&mut self.parser, 0);
                } else {
                    let (screen_rows, _) = parser_size(&self.parser);
                    let most = screen_rows as usize;
                    parser_set_scrollback(&mut self.parser, if rows <= most { rows } else { most });
                }
            },
            ScreenMode::Alternate => {
                let max = if self.alt_history.len() > 0 { self.alt_history.len() - 1 } else { 0 };
                self.alt_scrollback = if rows <= max { rows } else { max };
            },
        }
    }
}

} // verus!
