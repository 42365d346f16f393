//! What one frame shows: the tab bar, the panes of the active tab with
//! their screens, a notice, and a modal box.

use vstd::prelude::*;

use crate::errors::{tabs_error_text, AppError, TabsError};
use crate::help::HelpOverlayState;
use crate::layout::Rect;
use crate::placement::{node_placements, PanePlacement};
use crate::rename::{default_pane_title, default_pane_title_for, RenameState, RenameTarget};
use crate::screen::lines_model;
use crate::selection::{point_le, SelectionState};
use crate::tabs::{all_entries, first_without_entry, pane_location, scrolled_back_of, shown_cursor, shown_lines, TabManager, TabModel};
use crate::text::owned;
use crate::ui::{ClipboardNoticeView, FrameView, InputModalView, ModalView, PaneSelectionView, PaneView, TabView, TextModalView};
use crate::base::PaneId;

verus! {

broadcast use vstd::std_specs::vec::group_vec_axioms;

/// How a selection shows in pane `id`: nothing for another pane or an
/// empty selection, else its two ends, the earlier first.
pub open spec fn selection_view(sel: Option<SelectionState>, id: PaneId) -> Option<PaneSelectionView> {
    match sel {
        Some(s) => if s.pane_id != id || s.anchor == s.focus {
            None
        } else if point_le(s.anchor, s.focus) {
            Some(PaneSelectionView { start: (s.anchor.row, s.anchor.col), end: (s.focus.row, s.focus.col) })
        } else {
            Some(PaneSelectionView { start: (s.focus.row, s.focus.col), end: (s.anchor.row, s.anchor.col) })
        },
        None => None,
    }
}

/// The title a pane is drawn with: that of its entry, or the default one.
pub open spec fn drawn_title(ts: Seq<TabModel>, id: PaneId) -> Seq<char> {
    match pane_location(ts, id) {
        Some((i, j)) => ts[i].panes[j].title,
        None => default_pane_title(id),
    }
}

/// Pane view `v` draws placement `p`: where it stands, whether it is
/// focused, its title, the selection in it, the rows its screen shows (a
/// kept screen when scrolled back, else the live one), and its cursor,
/// which is hidden while the screen is scrolled back or, for the pane
/// `active`, while `active_scrolled_back` holds; a pane without an entry is
/// drawn empty.
pub open spec fn pane_view_fits(
    v: PaneView,
    p: PanePlacement,
    ts: Seq<TabModel>,
    sel: Option<SelectionState>,
    active: PaneId,
    active_scrolled_back: bool,
) -> bool {
    &&& v.id == p.pane_id
    &&& v.area == p.rect
    &&& v.active == p.focused
    &&& v.title@ == drawn_title(ts, p.pane_id)
    &&& v.selection == selection_view(sel, p.pane_id)
    &&& match pane_location(ts, p.pane_id) {
        Some((i, j)) => lines_model(v.lines@) == shown_lines(ts[i].panes[j].screen) && v.cursor == (if p.pane_id == active
            && active_scrolled_back {
            None
        } else {
            shown_cursor(ts[i].panes[j].screen)
        }),
        None => v.lines@.len() == 0 && v.cursor is None,
    }
}

/// Whether the focused pane of the active tab is scrolled back (false when
/// it has no entry).
pub open spec fn active_scrolled_back(tabs: TabManager) -> bool {
    match pane_location(tabs.tabs(), tabs.active_model().focused) {
        Some((i, j)) => scrolled_back_of(tabs.tabs()[i].panes[j].screen),
        None => false,
    }
}

/// The modal box: the rename box while renaming, else the help overlay
/// when it is open, else none.
pub open spec fn modal_fits(m: Option<ModalView>, rename: Option<RenameState>, help: Option<HelpOverlayState>, help_lines: Seq<String>) -> bool {
    match rename {
        Some(rs) => m matches Some(ModalView::Input(v)) && v.title@ == (match rs.target {
            RenameTarget::Tab(_) => "Rename Tab"@,
            RenameTarget::Pane(_) => "Rename Pane"@,
        }) && v.input@ == rs.input@ && v.cursor == rs.cursor && v.hint@ == "Enter apply, Esc cancel"@,
        None => match help {
            Some(h) => m matches Some(ModalView::Text(v)) && v.title@ == "Help"@ && v.lines@.map_values(|s: String| s@)
                == help_lines.map_values(|s: String| s@) && v.scroll_row == h.scroll_row && v.scroll_col == h.scroll_col
                && v.hint@ == "Esc close, arrows scroll, PgUp/PgDn page"@,
            None => m is None,
        },
    }
}

/// Copies of the lines.
fn copy_lines(lines: &Vec<String>) -> (r: Vec<String>)
    ensures
        r@.map_values(|s: String| s@) == lines@.map_values(|s: String| s@),
{
    let mut out: Vec<String> = Vec::new();
    let mut i: usize = 0;
    while i < lines.len()
        invariant
            0 <= i <= lines@.len(),
            out@.len() == i,
            forall|k: int| 0 <= k < i ==> (#[trigger] out@[k])@ == lines@[k]@,
        decreases lines@.len() - i,
    {
        out.push(owned(lines[i].as_str()));
        i = i + 1;
    }
    proof {
        assert(out@.map_values(|s: String| s@) =~= lines@.map_values(|s: String| s@));
    }
    out
}

/// The modal box for the rename box or the help overlay.
fn modal_view(rename: &Option<RenameState>, help: Option<HelpOverlayState>, help_lines: &Vec<String>) -> (m: Option<ModalView>)
    ensures
        modal_fits(m, *rename, help, help_lines@),
{
    match rename {
        Some(rs) => {
            let title = match rs.target {
                RenameTarget::Tab(_) => owned("Rename Tab"),
                RenameTarget::Pane(_) => owned("Rename Pane"),
            };
            Some(ModalView::Input(InputModalView {
                title,
                input: owned(rs.input.as_str()),
                cursor: rs.cursor,
                hint: owned("Enter apply, Esc cancel"),
            }))
        },
        None => match help {
            Some(h) => Some(ModalView::Text(TextModalView {
                title: owned("Help"),
                lines: copy_lines(help_lines),
                scroll_row: h.scroll_row,
                scroll_col: h.scroll_col,
                hint: owned("Esc close, arrows scroll, PgUp/PgDn page"),
            })),
            None => None,
        },
    }
}

/// What the frame shows when the content area is `content_area`: a tab for
/// each tab, the active one marked; a pane view for each pane of the
/// active tab where it stands; the notice; the modal box; and whether the
/// window has the focus. Each pane of a layout needs an entry.
pub fn build_frame_view(
    tabs: &TabManager,
    content_area: Rect,
    selection: Option<SelectionState>,
    rename: &Option<RenameState>,
    help: Option<HelpOverlayState>,
    help_lines: &Vec<String>,
    notice: &Option<String>,
    window_focused: bool,
) -> (r: Result<FrameView, AppError>)
    requires
        tabs.wf(),
    ensures
        all_entries(tabs.tabs()) ==> (r matches Ok(f) && {
            let ts = tabs.tabs();
            let ps = node_placements(tabs.active_model().root, content_area, tabs.active_model().focused);
            &&& f.tabs@.len() == ts.len()
            &&& forall|i: int|
                0 <= i < ts.len() ==> (#[trigger] f.tabs@[i]).id == ts[i].id && f.tabs@[i].title@ == ts[i].title
                    && f.tabs@[i].active == (ts[i].id == tabs.active_model().id)
            &&& f.panes@.len() == ps.len()
            &&& forall|k: int|
                0 <= k < ps.len() ==> pane_view_fits(
                    #[trigger] f.panes@[k],
                    ps[k],
                    ts,
                    selection,
                    tabs.active_model().focused,
                    active_scrolled_back(*tabs),
                )
            &&& f.focused == window_focused
            &&& match *notice {
                Some(t) => f.clipboard_notice matches Some(n) && n.text@ == t@,
                None => f.clipboard_notice is None,
            }
            &&& modal_fits(f.modal, *rename, help, help_lines@)
        }),
        r is Err ==> exists|i: int, k: int| #[trigger] first_without_entry(tabs.tabs(), i, k) && (r matches Err(AppError::Tabs(m)) && m@
            == tabs_error_text(TabsError::PaneNotFound(tabs.tabs()[i].root.panes()[k]))),
{
    let snapshot = match tabs.snapshot() {
        Ok(s) => s,
        Err(e) => return Err(AppError::Tabs(e.message())),
    };
    let ghost ts = tabs.tabs();
    let active_tab = snapshot.active_tab;
    let active_pane = tabs.active_pane_id();
    let scrolled_back = match tabs.active_pane_is_scrolled_back() {
        Ok(b) => b,
        Err(_) => false,
    };
    let mut tab_views: Vec<TabView> = Vec::new();
    let mut i: usize = 0;
    while i < snapshot.tabs.len()
        invariant
            0 <= i <= snapshot.tabs@.len(),
            snapshot.tabs@.len() == ts.len(),
            active_tab == tabs.active_model().id,
            forall|q: int| 0 <= q < ts.len() ==> (#[trigger] snapshot.tabs@[q]).id == ts[q].id && snapshot.tabs@[q].title@ == ts[q].title,
            tab_views@.len() == i,
            forall|q: int|
                0 <= q < i ==> (#[trigger] tab_views@[q]).id == ts[q].id && tab_views@[q].title@ == ts[q].title
                    && tab_views@[q].active == (ts[q].id == active_tab),
        decreases snapshot.tabs@.len() - i,
    {
        let t = &snapshot.tabs[i];
        tab_views.push(TabView { id: t.id, title: owned(t.title.as_str()), active: t.id == active_tab });
        i = i + 1;
    }
    let placements = match tabs.placements(content_area) {
        Ok(p) => p,
        Err(e) => return Err(AppError::Tabs(e.message())),
    };
    let ghost ps = node_placements(tabs.active_model().root, content_area, tabs.active_model().focused);
    let mut pane_views: Vec<PaneView> = Vec::new();
    let mut k: usize = 0;
    while k < placements.len()
        invariant
            0 <= k <= placements@.len(),
            tabs.wf(),
            ts == tabs.tabs(),
            placements@.len() == ps.len(),
            forall|m: int| 0 <= m < ps.len() ==> #[trigger] placements@[m] == (ps[m].pane_id, ps[m].rect, ps[m].focused),
            pane_views@.len() == k,
            active_pane == tabs.active_model().focused,
            scrolled_back == active_scrolled_back(*tabs),
            forall|m: int| 0 <= m < k ==> pane_view_fits(#[trigger] pane_views@[m], ps[m], ts, selection, active_pane, scrolled_back),
        decreases placements@.len() - k,
    {
        let (id, area, focused) = placements[k];
        let cursor = if id == active_pane && scrolled_back {
            None
        } else {
            match tabs.pane_cursor(id) {
                Ok(c) => c,
                Err(_) => None,
            }
        };
        let title = match tabs.pane_title(id) {
            Ok(t) => owned(t),
            Err(_) => default_pane_title_for(id),
        };
        let lines = match tabs.pane_lines(id) {
            Ok(l) => l,
            Err(_) => Vec::new(),
        };
        let sel = match selection {
            Some(s) => s.view_for(id),
            None => None,
        };
        let v = PaneView { id, title, area, active: focused, lines, selection: sel, cursor };
        proof {
            assert(v.selection == selection_view(selection, id));
            assert(pane_view_fits(v, ps[k as int], ts, selection, active_pane, scrolled_back));
        }
        pane_views.push(v);
        k = k + 1;
    }
    let clipboard_notice = match notice {
        Some(t) => Some(ClipboardNoticeView { text: owned(t.as_str()) }),
        None => None,
    };
    let modal = modal_view(rename, help, help_lines);
    Ok(FrameView { tabs: tab_views, panes: pane_views, focused: window_focused, clipboard_notice, modal })
}

} // verus!
