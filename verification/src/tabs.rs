//! The tabs of a session: each with a title, a layout and the screens of
//! its panes, one of them active. The shells behind the panes are kept by
//! the program beside this bookkeeping, by pane identifier.

use vstd::prelude::*;

use crate::base::{FocusMoveDirection, IdAllocator, PaneId, ResizeDirection, SplitDirection, TabId};
use crate::errors::TabsError;
use crate::escape::ScreenMode;
use crate::layout::{closed_model, is_first_occurrence, split_model, LayoutError, LayoutTree, NodeModel, Rect};
use crate::placement::{focus_area, focus_target, node_placements, PanePlacement};
use crate::resize::{fits_minimum, resize_candidate};
use crate::rename::{default_pane_title, default_pane_title_for, default_tab_title, default_tab_title_for};
use crate::escape::esc_run;
use crate::screen::{grown, max_offset, row_text, ScreenLine, TerminalScreen, lines_model, CellModel};
use crate::session::{lemma_validated_tab, validation, validation_error_text, PaneSnapshot, SessionSnapshot, TabSnapshot};
use crate::snapshot::{lemma_normalize_normal, no_empty_split, normalize_model};
use crate::selection::{join_rows, joined_lines, selection_text, selection_text_from_lines};
use crate::text::{concat, owned};

verus! {

broadcast use {vstd::std_specs::vec::group_vec_axioms, crate::base::group_id_injective};

/// Rows of the screen of a new pane.
pub const DEFAULT_TERMINAL_ROWS: u16 = 24;

/// Columns of the screen of a new pane.
pub const DEFAULT_TERMINAL_COLS: u16 = 80;

/// Rows of scrollback, and screens of history, a new pane keeps.
pub const DEFAULT_SCROLLBACK_LEN: usize = 1000;

/// A pane as a caller sees it.
#[derive(Debug, Clone, PartialEq, Eq)]
pub struct RuntimePane {
    pub id: PaneId,
    pub cwd: String,
    pub title: String,
}

/// A tab: its identifier, title and layout.
#[derive(Debug)]
pub struct RuntimeTab {
    pub id: TabId,
    pub title: String,
    pub layout: LayoutTree,
}

/// A tab as the tab bar shows it.
#[derive(Debug, Clone, PartialEq, Eq)]
pub struct RuntimeTabSummary {
    pub id: TabId,
    pub title: String,
    pub active: bool,
}

/// What is kept of a pane: its screen, the last working directory known of
/// its shell, and its title.
pub struct PaneEntry {
    id: PaneId,
    screen: TerminalScreen,
    last_known_cwd: String,
    title: String,
}

struct TabEntry {
    runtime: RuntimeTab,
    panes: Vec<PaneEntry>,
}

/// The tabs of a session and the active one.
pub struct TabManager {
    tabs: Vec<TabEntry>,
    active_tab: usize,
    ids: IdAllocator,
}

/// The mathematical form of a pane entry.
pub struct PaneModel {
    pub id: PaneId,
    pub title: Seq<char>,
    pub cwd: Seq<char>,
    pub screen: TerminalScreen,
}

/// The mathematical form of a tab.
pub struct TabModel {
    pub id: TabId,
    pub title: Seq<char>,
    pub root: NodeModel,
    pub focused: PaneId,
    pub panes: Seq<PaneModel>,
}

spec fn pane_model(p: PaneEntry) -> PaneModel {
    PaneModel { id: p.id, title: p.title@, cwd: p.last_known_cwd@, screen: p.screen }
}

spec fn entries_model(v: Seq<PaneEntry>) -> Seq<PaneModel> {
    v.map_values(|p: PaneEntry| pane_model(p))
}

spec fn tab_model(t: TabEntry) -> TabModel {
    TabModel {
        id: t.runtime.id,
        title: t.runtime.title@,
        root: t.runtime.layout.root_model(),
        focused: t.runtime.layout.focused(),
        panes: entries_model(t.panes@),
    }
}

/// A tab is well formed: its layout is, holds its focused pane and fewer
/// than 65536 panes; no two of its pane entries have the same identifier,
/// and each screen is well formed.
pub open spec fn tab_ok(t: TabModel) -> bool {
    &&& t.root.wf()
    &&& t.root.panes().contains(t.focused)
    &&& t.root.panes().len() < 65536
    &&& forall|a: int, b: int| 0 <= a < b < t.panes.len() ==> t.panes[a].id != t.panes[b].id
    &&& forall|j: int| 0 <= j < t.panes.len() ==> (#[trigger] t.panes[j]).screen.wf()
}

/// Every tab is well formed, no two tabs have the same identifier, and
/// every identifier handed out is below the next one of its kind.
#[verifier::opaque]
pub open spec fn tabs_ok(tabs: Seq<TabModel>, next_tab: u64, next_pane: u64) -> bool {
    &&& forall|i: int| 0 <= i < tabs.len() ==> tab_ok(#[trigger] tabs[i])
    &&& distinct_tab_ids(tabs)
    &&& forall|i: int| 0 <= i < tabs.len() ==> (#[trigger] tabs[i]).id@ < next_tab
    &&& forall|i: int, j: int|
        0 <= i < tabs.len() && 0 <= j < tabs[i].panes.len() ==> (#[trigger] tabs[i].panes[j]).id@ < next_pane
}

/// No two tabs have the same identifier.
pub open spec fn distinct_tab_ids(tabs: Seq<TabModel>) -> bool {
    forall|i: int, j: int| 0 <= i < tabs.len() && 0 <= j < tabs.len() && i != j ==> (#[trigger] tabs[i]).id != (#[trigger] tabs[j]).id
}

/// The tabs of a well-formed manager have distinct identifiers, so the
/// first tab with a tab's identifier is that tab.
pub proof fn lemma_tab_index_of_position(t: TabManager, i: int)
    requires
        t.wf(),
        0 <= i < t.tabs().len(),
    ensures
        distinct_tab_ids(t.tabs()),
        tab_index(t.tabs(), t.tabs()[i].id) == Some(i),
{
    reveal(tabs_ok);
    let ts = t.tabs();
    assert(0 <= i < ts.len() && ts[i].id == ts[i].id);
    let c = choose|c: int| 0 <= c < ts.len() && ts[c].id == ts[i].id && forall|k: int| 0 <= k < c ==> ts[k].id != ts[i].id;
    if c != i {
        assert(ts[c].id != ts[i].id);
    }
}

/// Pane `id` has an entry.
pub open spec fn has_entry(panes: Seq<PaneModel>, id: PaneId) -> bool {
    exists|j: int| 0 <= j < panes.len() && (#[trigger] panes[j]).id == id
}

/// The index of the entry of pane `id` in a tab, if it has one.
pub open spec fn entry_of(panes: Seq<PaneModel>, id: PaneId) -> Option<int> {
    if exists|j: int| 0 <= j < panes.len() && panes[j].id == id {
        Some(choose|j: int| 0 <= j < panes.len() && panes[j].id == id)
    } else {
        None
    }
}

impl TabManager {
    /// The tabs, in order.
    pub closed spec fn tabs(&self) -> Seq<TabModel> {
        self.tabs@.map_values(|t: TabEntry| tab_model(t))
    }

    /// The position of the active tab.
    pub closed spec fn active(&self) -> int {
        self.active_tab as int
    }

    /// The identifier allocator.
    pub closed spec fn allocator(&self) -> IdAllocator {
        self.ids
    }

    /// Well-formedness: there is a tab, the active one exists, every tab is
    /// well formed, and the identifiers handed out so far are all below the
    /// next ones.
    pub open spec fn wf(&self) -> bool {
        &&& self.tabs().len() >= 1
        &&& 0 <= self.active() < self.tabs().len()
        &&& tabs_ok(self.tabs(), self.allocator().next_tab_raw(), self.allocator().next_pane_raw())
    }

    /// The active tab.
    pub open spec fn active_model(&self) -> TabModel {
        self.tabs()[self.active()]
    }
}

/// A screen as a new pane gets it.
pub open spec fn fresh_screen(s: TerminalScreen) -> bool {
    &&& s.wf()
    &&& s.mode() == ScreenMode::Normal
    &&& s.normal_history().len() == 0
    &&& s.alt_history().len() == 0
    &&& s.history_limits() == (DEFAULT_SCROLLBACK_LEN as int, DEFAULT_SCROLLBACK_LEN as int)
}

fn new_entry(id: PaneId, cwd: String) -> (e: PaneEntry)
    ensures
        e.id == id,
        e.last_known_cwd@ == cwd@,
        e.title@ == default_pane_title(id),
        fresh_screen(e.screen),
{
    PaneEntry {
        id,
        screen: TerminalScreen::new(DEFAULT_TERMINAL_ROWS, DEFAULT_TERMINAL_COLS, DEFAULT_SCROLLBACK_LEN),
        last_known_cwd: cwd,
        title: default_pane_title_for(id),
    }
}

/// The first tab with identifier `id`, if any.
pub open spec fn tab_index(tabs: Seq<TabModel>, id: TabId) -> Option<int> {
    if exists|i: int| 0 <= i < tabs.len() && tabs[i].id == id {
        Some(choose|i: int| 0 <= i < tabs.len() && tabs[i].id == id && forall|k: int| 0 <= k < i ==> tabs[k].id != id)
    } else {
        None
    }
}

/// The first tab with an entry for pane `id`, and the entry's index.
pub open spec fn pane_location(tabs: Seq<TabModel>, id: PaneId) -> Option<(int, int)> {
    if exists|i: int| 0 <= i < tabs.len() && entry_of(tabs[i].panes, id) is Some {
        let i = choose|i: int|
            0 <= i < tabs.len() && entry_of(tabs[i].panes, id) is Some && forall|k: int|
                0 <= k < i ==> entry_of(tabs[k].panes, id) is None;
        Some((i, entry_of(tabs[i].panes, id)->0))
    } else {
        None
    }
}

/// Entries with distinct identifiers have at most one entry per pane.
proof fn lemma_entry_unique(panes: Seq<PaneModel>, id: PaneId, j: int)
    requires
        forall|a: int, b: int| 0 <= a < b < panes.len() ==> panes[a].id != panes[b].id,
        0 <= j < panes.len(),
        panes[j].id == id,
    ensures
        entry_of(panes, id) == Some(j),
{
    let k = choose|k: int| 0 <= k < panes.len() && panes[k].id == id;
    if k < j {
        assert(panes[k].id != panes[j].id);
    } else if k > j {
        assert(panes[j].id != panes[k].id);
    }
}

/// The offset a screen reports as its scrollback when it is its own: in
/// the normal screen with kept screens, or in the alternate screen.
pub open spec fn known_offset(s: TerminalScreen) -> Option<int> {
    if s.mode() == ScreenMode::Normal && s.normal_history().len() > 0 {
        Some(s.normal_offset())
    } else if s.mode() == ScreenMode::Alternate {
        Some(s.alt_offset())
    } else {
        None
    }
}

/// `b` is `a` scrolled back `rows` (see `TerminalScreen::set_scrollback`).
pub open spec fn scrolled_to(a: TerminalScreen, b: TerminalScreen, rows: int) -> bool {
    &&& b.wf()
    &&& b.mode() == a.mode()
    &&& b.esc() == a.esc()
    &&& b.normal_history() == a.normal_history()
    &&& b.alt_history() == a.alt_history()
    &&& b.history_limits() == a.history_limits()
    &&& a.mode() == ScreenMode::Normal && a.normal_history().len() > 0 ==> b.normal_offset() == (if rows
        <= a.normal_history().len() - 1 {
        rows
    } else {
        a.normal_history().len() - 1
    })
    &&& a.mode() == ScreenMode::Normal ==> b.alt_offset() == a.alt_offset()
    &&& a.mode() == ScreenMode::Alternate ==> b.alt_offset() == (if rows <= max_offset(a.alt_history().len() as int) {
        rows
    } else {
        max_offset(a.alt_history().len() as int)
    })
    &&& a.mode() == ScreenMode::Alternate ==> b.normal_offset() == a.normal_offset()
    &&& a.mode() == ScreenMode::Normal && a.normal_history().len() == 0 ==> b.normal_offset() == a.normal_offset()
}

/// Pane `p` showing screen `s`.
pub open spec fn with_screen(p: PaneModel, s: TerminalScreen) -> PaneModel {
    PaneModel { screen: s, ..p }
}

/// `after` is `before` with the screen of entry `j` of tab `i` scrolled
/// back `rows`.
pub open spec fn pane_scrolled(before: Seq<TabModel>, after: Seq<TabModel>, i: int, j: int, rows: int) -> bool {
    exists|s: TerminalScreen|
        #[trigger] scrolled_to(before[i].panes[j].screen, s, rows) && after == with_entry(before, i, j, with_screen(before[i].panes[j], s))
}

/// The tabs with entry `j` of tab `i` replaced by `p`.
pub open spec fn with_entry(tabs: Seq<TabModel>, i: int, j: int, p: PaneModel) -> Seq<TabModel> {
    tabs.update(i, TabModel { panes: tabs[i].panes.update(j, p), ..tabs[i] })
}

/// Replacing an entry by one of the same pane with a well-formed screen
/// keeps the tabs well formed.
proof fn lemma_with_entry(tabs: Seq<TabModel>, nt: u64, np: u64, i: int, j: int, p: PaneModel)
    requires
        tabs_ok(tabs, nt, np),
        0 <= i < tabs.len(),
        0 <= j < tabs[i].panes.len(),
        p.id == tabs[i].panes[j].id,
        p.screen.wf(),
    ensures
        tabs_ok(with_entry(tabs, i, j, p), nt, np),
{
    reveal(tabs_ok);
    let ts = with_entry(tabs, i, j, p);
    assert forall|k: int| 0 <= k < ts.len() implies tab_ok(#[trigger] ts[k]) && ts[k].id@ < nt by {
        if k == i {
            let t = ts[k];
            assert(tab_ok(tabs[i]));
            assert forall|a: int, b: int| 0 <= a < b < t.panes.len() implies t.panes[a].id != t.panes[b].id by {
                assert(t.panes[a].id == tabs[i].panes[a].id);
                assert(t.panes[b].id == tabs[i].panes[b].id);
            }
            assert forall|m: int| 0 <= m < t.panes.len() implies (#[trigger] t.panes[m]).screen.wf() by {
                if m != j {
                    assert(t.panes[m] == tabs[i].panes[m]);
                }
            }
        }
    }
    assert forall|k: int, m: int| 0 <= k < ts.len() && 0 <= m < ts[k].panes.len() implies (#[trigger] ts[k].panes[m]).id@ < np by {
        if k == i {
            assert(ts[k].panes[m].id == tabs[k].panes[m].id);
        }
        assert(tabs[k].panes[m].id@ < np);
    }
}

/// The entries of well-formed tabs have well-formed screens.
proof fn lemma_entry_screen(tabs: Seq<TabModel>, nt: u64, np: u64, i: int, j: int)
    requires
        tabs_ok(tabs, nt, np),
        0 <= i < tabs.len(),
        0 <= j < tabs[i].panes.len(),
    ensures
        tabs[i].panes[j].screen.wf(),
        tabs[i].panes[j].id@ < np,
        tab_ok(tabs[i]),
{
    reveal(tabs_ok);
    assert(tab_ok(tabs[i]));
}

/// Every entry of well-formed tabs has a well-formed screen.
proof fn lemma_entry_screens(tabs: Seq<TabModel>, nt: u64, np: u64, i: int)
    requires
        tabs_ok(tabs, nt, np),
        0 <= i < tabs.len(),
    ensures
        forall|j: int| 0 <= j < tabs[i].panes.len() ==> (#[trigger] tabs[i].panes[j]).screen.wf(),
{
    reveal(tabs_ok);
    assert(tab_ok(tabs[i]));
}

/// Retitling a tab keeps the tabs well formed.
proof fn lemma_retitle(tabs: Seq<TabModel>, nt: u64, np: u64, i: int, title: Seq<char>)
    requires
        tabs_ok(tabs, nt, np),
        0 <= i < tabs.len(),
    ensures
        tabs_ok(tabs.update(i, TabModel { title, ..tabs[i] }), nt, np),
{
    reveal(tabs_ok);
    let ts = tabs.update(i, TabModel { title, ..tabs[i] });
    assert forall|k: int| 0 <= k < ts.len() implies tab_ok(#[trigger] ts[k]) && ts[k].id@ < nt by {
        assert(tabs[k].id@ < nt);
    }
    assert forall|k: int, j: int| 0 <= k < ts.len() && 0 <= j < ts[k].panes.len() implies (#[trigger] ts[k].panes[j]).id@ < np by {
        assert(tabs[k].panes[j].id@ < np);
    }
}

/// What splitting the focused pane of the active tab does.
pub open spec fn split_outcome(a: TabManager, b: TabManager, direction: SplitDirection, cwd: Seq<char>, r: Result<PaneId, TabsError>) -> bool {
    &&& b.wf()
    &&& b.active() == a.active()
    &&& b.allocator().next_tab_raw() == a.allocator().next_tab_raw()
    &&& match entry_of(a.active_model().panes, a.active_model().focused) {
        Some(_) => r matches Ok(id) && id@ == a.allocator().next_pane_raw()
            && b.allocator().next_pane_raw() == a.allocator().next_pane_raw() + 1
            && b.tabs().len() == a.tabs().len()
            && (forall|q: int| 0 <= q < a.tabs().len() && q != a.active() ==> #[trigger] b.tabs()[q] == a.tabs()[q])
            && pane_split(a.active_model(), b.active_model(), direction, id, cwd),
        None => r == Err::<PaneId, TabsError>(TabsError::PaneNotFound(a.active_model().focused))
            && b.tabs() == a.tabs() && b.allocator() == a.allocator()
    }
}

/// What opening a tab does: a tab with the next identifier is added at
/// the end and becomes active; it shows one new pane, with the next pane
/// identifier, in `cwd`.
pub open spec fn new_tab_outcome(a: TabManager, b: TabManager, id: TabId, cwd: Seq<char>) -> bool {
    &&& b.wf()
    &&& id@ == a.allocator().next_tab_raw()
    &&& b.tabs().len() == a.tabs().len() + 1
    &&& b.tabs().take(a.tabs().len() as int) == a.tabs()
    &&& b.active() == a.tabs().len()
    &&& b.active_model().id == id
    &&& b.active_model().title == default_tab_title(id)
    &&& b.active_model().focused@ == a.allocator().next_pane_raw()
    &&& b.active_model().root == NodeModel::Pane(b.active_model().focused)
    &&& b.active_model().panes.len() == 1
    &&& b.active_model().panes[0].id == b.active_model().focused
    &&& b.active_model().panes[0].title == default_pane_title(b.active_model().focused)
    &&& b.active_model().panes[0].cwd == cwd
    &&& fresh_screen(b.active_model().panes[0].screen)
    &&& b.allocator().next_tab_raw() == a.allocator().next_tab_raw() + 1
    &&& b.allocator().next_pane_raw() == a.allocator().next_pane_raw() + 1
}

/// Every entry of a well-formed manager has an identifier below the next
/// one to be handed out.
pub proof fn lemma_pane_ids_below(m: TabManager)
    requires
        m.wf(),
    ensures
        forall|i: int, j: int|
            0 <= i < m.tabs().len() && 0 <= j < m.tabs()[i].panes.len() ==> (#[trigger] m.tabs()[i].panes[j]).id@
                < m.allocator().next_pane_raw(),
{
    reveal(tabs_ok);
}

/// What closing the focused pane of the active tab does.
pub open spec fn close_pane_outcome(a: TabManager, b: TabManager, r: Result<PaneId, TabsError>) -> bool {
    &&& b.wf()
    &&& b.active() == a.active()
    &&& b.allocator() == a.allocator()
    &&& a.active_model().root.panes().len() == 1 ==> r == Err::<PaneId, TabsError>(
        TabsError::Layout(LayoutError::CannotCloseLastPane),
    ) && b.tabs() == a.tabs()
    &&& a.active_model().root.panes().len() > 1 ==> {
        let o = a.active_model();
        let t = b.active_model();
        &&& b.tabs() == a.tabs().update(a.active(), t)
        &&& layout_closed(o, t)
        &&& match entry_of(o.panes, o.focused) {
            Some(j) => r == Ok::<PaneId, TabsError>(o.focused) && t.panes == o.panes.remove(j),
            None => r == Err::<PaneId, TabsError>(TabsError::PaneNotFound(o.focused)) && t.panes == o.panes,
        }
    }
}

/// What moving the focus of the active tab does.
pub open spec fn move_focus_outcome(a: TabManager, b: TabManager, direction: FocusMoveDirection, r: Result<PaneId, TabsError>) -> bool {
    &&& b.wf()
    &&& b.active() == a.active()
    &&& b.allocator() == a.allocator()
    &&& r matches Ok(target) && focus_moved(a.active_model().root, a.active_model().focused, direction, target)
        && b.tabs() == with_layout(a.tabs(), a.active(), a.active_model().root, target)
}

/// What resizing the focused pane of the active tab does.
pub open spec fn resize_outcome(a: TabManager, b: TabManager, direction: ResizeDirection, area: Rect, r: Result<bool, TabsError>) -> bool {
    &&& b.wf()
    &&& b.active() == a.active()
    &&& b.allocator() == a.allocator()
    &&& ({
        let t = a.active_model();
        let c = resize_candidate(t.root, area, t.focused, direction);
        let moved = c is Some && fits_minimum(node_placements(c->0, area, t.focused));
        &&& r == Ok::<bool, TabsError>(moved)
        &&& moved ==> b.tabs() == with_layout(a.tabs(), a.active(), c->0, t.focused) && (c->0).panes() == t.root.panes()
        &&& !moved ==> b.tabs() == a.tabs()
    })
}

/// What scrolling the focused pane of the active tab back some rows does.
pub open spec fn scroll_up_lines_outcome(a: TabManager, b: TabManager, lines: u16, r: Result<(), TabsError>) -> bool {
    &&& b.wf()
    &&& b.active() == a.active()
    &&& b.allocator() == a.allocator()
    &&& match entry_of(a.active_model().panes, a.active_model().focused) {
        Some(j) => r is Ok && match known_offset(a.active_model().panes[j].screen) {
            Some(o) => pane_scrolled(a.tabs(), b.tabs(), a.active(), j, scrolled_up_by(o, lines as int)),
            None => pane_scrolled_somewhere(a.tabs(), b.tabs(), a.active(), j),
        },
        None => r == Err::<(), TabsError>(TabsError::PaneNotFound(a.active_model().focused))
            && b.tabs() == a.tabs()
    }
}

/// What scrolling the focused pane of the active tab forward some rows does.
pub open spec fn scroll_down_lines_outcome(a: TabManager, b: TabManager, lines: u16, r: Result<(), TabsError>) -> bool {
    &&& b.wf()
    &&& b.active() == a.active()
    &&& b.allocator() == a.allocator()
    &&& match entry_of(a.active_model().panes, a.active_model().focused) {
        Some(j) => r is Ok && match known_offset(a.active_model().panes[j].screen) {
            Some(o) => pane_scrolled(a.tabs(), b.tabs(), a.active(), j, scrolled_down_by(o, lines as int)),
            None => pane_scrolled_somewhere(a.tabs(), b.tabs(), a.active(), j),
        },
        None => r == Err::<(), TabsError>(TabsError::PaneNotFound(a.active_model().focused))
            && b.tabs() == a.tabs()
    }
}

/// The rows that `pages` screens of `rows` rows make, at most `u16::MAX`.
pub open spec fn page_lines(rows: int, pages: int) -> int {
    if rows * pages > u16::MAX {
        u16::MAX as int
    } else {
        rows * pages
    }
}

/// What scrolling the focused pane of the active tab `pages` screens back
/// (`up`) or forward does: it scrolls by as many rows as the pane's screen
/// has, for each page.
pub open spec fn scroll_pages_outcome(a: TabManager, b: TabManager, pages: u16, up: bool, r: Result<(), TabsError>) -> bool {
    &&& b.wf()
    &&& b.active() == a.active()
    &&& b.allocator() == a.allocator()
    &&& match entry_of(a.active_model().panes, a.active_model().focused) {
        Some(j) => r is Ok && {
            let s = a.active_model().panes[j].screen;
            let lines = page_lines(s.dims().0 as int, pages as int);
            match known_offset(s) {
                Some(o) => pane_scrolled(a.tabs(), b.tabs(), a.active(), j, if up {
                    scrolled_up_by(o, lines)
                } else {
                    scrolled_down_by(o, lines)
                }),
                None => pane_scrolled_somewhere(a.tabs(), b.tabs(), a.active(), j),
            }
        },
        None => r == Err::<(), TabsError>(TabsError::PaneNotFound(a.active_model().focused))
            && b.tabs() == a.tabs()
    }
}

/// What showing the live screen of the focused pane of the active tab does.
pub open spec fn scroll_to_bottom_outcome(a: TabManager, b: TabManager, r: Result<(), TabsError>) -> bool {
    &&& b.wf()
    &&& b.active() == a.active()
    &&& b.allocator() == a.allocator()
    &&& match entry_of(a.active_model().panes, a.active_model().focused) {
        Some(j) => r is Ok && pane_scrolled(a.tabs(), b.tabs(), a.active(), j, 0),
        None => r == Err::<(), TabsError>(TabsError::PaneNotFound(a.active_model().focused))
            && b.tabs() == a.tabs()
    }
}

/// What closing the active tab does.
pub open spec fn close_tab_outcome(a: TabManager, b: TabManager, r: Result<TabId, TabsError>) -> bool {
    &&& b.wf()
    &&& b.allocator() == a.allocator()
    &&& a.tabs().len() == 1 ==> r == Err::<TabId, TabsError>(TabsError::CannotCloseLastTab)
        && b.tabs() == a.tabs() && b.active() == a.active()
    &&& a.tabs().len() > 1 ==> r == Ok::<TabId, TabsError>(a.active_model().id)
        && b.tabs() == a.tabs().remove(a.active())
        && b.active() == (if a.active() < a.tabs().len() - 1 {
            a.active()
        } else {
            a.tabs().len() - 2
        })
}

/// What activating a tab does.
pub open spec fn activate_outcome(a: TabManager, b: TabManager, tab_id: TabId, r: Result<(), TabsError>) -> bool {
    &&& b.wf()
    &&& b.tabs() == a.tabs()
    &&& b.allocator() == a.allocator()
    &&& match tab_index(a.tabs(), tab_id) {
        Some(i) => r is Ok && b.active() == i,
        None => r == Err::<(), TabsError>(TabsError::TabNotFound(tab_id)) && b.active() == a.active()
    }
}

impl TabManager {
    proof fn lemma_tabs(&self)
        ensures
            self.tabs().len() == self.tabs@.len(),
            forall|i: int| 0 <= i < self.tabs@.len() ==> #[trigger] self.tabs()[i] == tab_model(self.tabs@[i]),
    {
    }

    /// A session of one tab, `Tab 1`, with one pane, `pane-0`, whose shell
    /// works in `cwd`.
    pub fn new(cwd: String) -> (m: TabManager)
        ensures
            m.wf(),
            m.tabs().len() == 1,
            m.active() == 0,
            m.tabs()[0].id@ == 0,
            m.tabs()[0].title == default_tab_title(m.tabs()[0].id),
            m.tabs()[0].root == NodeModel::Pane(m.tabs()[0].focused),
            m.tabs()[0].focused@ == 0,
            m.tabs()[0].panes.len() == 1,
            m.tabs()[0].panes[0].id@ == 0,
            m.tabs()[0].panes[0].title == default_pane_title(m.tabs()[0].panes[0].id),
            m.tabs()[0].panes[0].cwd == cwd@,
            fresh_screen(m.tabs()[0].panes[0].screen),
            m.allocator().next_tab_raw() == 1,
            m.allocator().next_pane_raw() == 1,
    {
        let mut ids = IdAllocator::new();
        let tab_id = ids.next_tab_id();
        let pane_id = ids.next_pane_id();
        let entry = new_entry(pane_id, cwd);
        let mut panes: Vec<PaneEntry> = Vec::new();
        panes.push(entry);
        let layout = LayoutTree::new(pane_id);
        let tab = TabEntry {
            runtime: RuntimeTab { id: tab_id, title: default_tab_title_for(tab_id), layout },
            panes,
        };
        let mut tabs: Vec<TabEntry> = Vec::new();
        tabs.push(tab);
        let m = TabManager { tabs, active_tab: 0, ids };
        proof {
            m.lemma_tabs();
            reveal(tabs_ok);
            assert(m.tabs()[0].panes.len() == 1);
        }
        m
    }

    /// The identifier of the active tab.
    pub fn active_tab_id(&self) -> (id: TabId)
        requires
            self.wf(),
        ensures
            id == self.active_model().id,
    {
        proof {
            self.lemma_tabs();
        }
        self.tabs[self.active_tab].runtime.id
    }

    /// The title of the active tab.
    pub fn active_tab_title(&self) -> (t: &str)
        requires
            self.wf(),
        ensures
            t@ == self.active_model().title,
    {
        proof {
            self.lemma_tabs();
        }
        self.tabs[self.active_tab].runtime.title.as_str()
    }

    /// The focused pane of the active tab.
    pub fn active_pane_id(&self) -> (id: PaneId)
        requires
            self.wf(),
        ensures
            id == self.active_model().focused,
    {
        proof {
            self.lemma_tabs();
        }
        self.tabs[self.active_tab].runtime.layout.focused_pane()
    }

    /// The identifiers of the tabs, in order.
    pub fn tab_ids(&self) -> (ids: Vec<TabId>)
        ensures
            ids@.len() == self.tabs().len(),
            forall|i: int| 0 <= i < ids@.len() ==> ids@[i] == (#[trigger] self.tabs()[i]).id,
    {
        proof {
            self.lemma_tabs();
        }
        let mut ids: Vec<TabId> = Vec::new();
        let mut i: usize = 0;
        while i < self.tabs.len()
            invariant
                0 <= i <= self.tabs@.len(),
                ids@.len() == i,
                forall|k: int| 0 <= k < i ==> ids@[k] == (#[trigger] self.tabs()[k]).id,
                forall|k: int| 0 <= k < self.tabs@.len() ==> #[trigger] self.tabs()[k] == tab_model(self.tabs@[k]),
            decreases self.tabs@.len() - i,
        {
            ids.push(self.tabs[i].runtime.id);
            i = i + 1;
        }
        ids
    }

    /// Opens a tab after the others, with one pane whose shell works in
    /// `cwd`, and makes it active.
    pub fn new_tab(&mut self, cwd: String) -> (id: TabId)
        requires
            old(self).wf(),
            old(self).allocator().next_tab_raw() < u64::MAX,
            old(self).allocator().next_pane_raw() < u64::MAX,
        ensures
            new_tab_outcome(*old(self), *final(self), id, cwd@),
    {
        proof {
            self.lemma_tabs();
        }
        let tab_id = self.ids.next_tab_id();
        let pane_id = self.ids.next_pane_id();
        let entry = new_entry(pane_id, cwd);
        let mut panes: Vec<PaneEntry> = Vec::new();
        panes.push(entry);
        let layout = LayoutTree::new(pane_id);
        let tab = TabEntry {
            runtime: RuntimeTab { id: tab_id, title: default_tab_title_for(tab_id), layout },
            panes,
        };
        self.tabs.push(tab);
        self.active_tab = self.tabs.len() - 1;
        proof {
            self.lemma_tabs();
            let ts = self.tabs();
            let olds = old(self).tabs();
            assert(ts.take(olds.len() as int) =~= olds);
            assert(ts[self.active()].panes.len() == 1);
            reveal(tabs_ok);
            assert forall|i: int| 0 <= i < ts.len() implies tab_ok(#[trigger] ts[i]) by {
                if i < olds.len() {
                    assert(ts[i] == olds[i]);
                }
            }
            assert forall|i: int| 0 <= i < ts.len() implies (#[trigger] ts[i]).id@ < self.allocator().next_tab_raw() by {
                if i < olds.len() {
                    assert(ts[i] == olds[i]);
                }
            }
            assert forall|i: int, j: int| 0 <= i < ts.len() && 0 <= j < ts[i].panes.len() implies (#[trigger] ts[i].panes[j]).id@
                < self.allocator().next_pane_raw() by {
                if i < olds.len() {
                    assert(ts[i] == olds[i]);
                }
            }
            assert forall|i: int, j: int| 0 <= i < ts.len() && 0 <= j < ts.len() && i != j implies (#[trigger] ts[i]).id
                != (#[trigger] ts[j]).id by {
                if i < olds.len() {
                    assert(ts[i] == olds[i]);
                    assert(olds[i].id@ < old(self).allocator().next_tab_raw());
                }
                if j < olds.len() {
                    assert(ts[j] == olds[j]);
                    assert(olds[j].id@ < old(self).allocator().next_tab_raw());
                }
            }
        }
        tab_id
    }

    /// Closes the active tab; the tab after it becomes active, or the one
    /// before when it was the last. The last tab cannot be closed.
    pub fn close_active_tab(&mut self) -> (r: Result<TabId, TabsError>)
        requires
            old(self).wf(),
        ensures
            close_tab_outcome(*old(self), *final(self), r),
    {
        proof {
            self.lemma_tabs();
        }
        if self.tabs.len() == 1 {
            return Err(TabsError::CannotCloseLastTab);
        }
        let removed = self.tabs.remove(self.active_tab);
        if self.active_tab >= self.tabs.len() {
            self.active_tab = self.tabs.len() - 1;
        }
        proof {
            self.lemma_tabs();
            let ts = self.tabs();
            let olds = old(self).tabs();
            assert(ts =~= olds.remove(old(self).active()));
            reveal(tabs_ok);
            assert forall|i: int| 0 <= i < ts.len() implies tab_ok(#[trigger] ts[i]) && ts[i].id@ < self.allocator().next_tab_raw() by {
                if i < old(self).active() {
                    assert(ts[i] == olds[i]);
                } else {
                    assert(ts[i] == olds[i + 1]);
                }
            }
            assert forall|i: int, j: int| 0 <= i < ts.len() && 0 <= j < ts[i].panes.len() implies (#[trigger] ts[i].panes[j]).id@
                < self.allocator().next_pane_raw() by {
                if i < old(self).active() {
                    assert(ts[i] == olds[i]);
                } else {
                    assert(ts[i] == olds[i + 1]);
                }
            }
        }
        Ok(removed.runtime.id)
    }

    /// The position of the first tab with identifier `tab_id`.
    fn tab_position(&self, tab_id: TabId) -> (r: Option<usize>)
        ensures
            match r {
                Some(i) => tab_index(self.tabs(), tab_id) == Some(i as int) && i < self.tabs@.len() && i < self.tabs().len(),
                None => tab_index(self.tabs(), tab_id) is None,
            },
    {
        proof {
            self.lemma_tabs();
        }
        let mut i: usize = 0;
        while i < self.tabs.len()
            invariant
                0 <= i <= self.tabs@.len(),
                forall|k: int| 0 <= k < i ==> (#[trigger] self.tabs()[k]).id != tab_id,
                forall|k: int| 0 <= k < self.tabs@.len() ==> #[trigger] self.tabs()[k] == tab_model(self.tabs@[k]),
                self.tabs().len() == self.tabs@.len(),
            decreases self.tabs@.len() - i,
        {
            if self.tabs[i].runtime.id == tab_id {
                proof {
                    let c = choose|c: int|
                        0 <= c < self.tabs().len() && self.tabs()[c].id == tab_id && forall|k: int|
                            0 <= k < c ==> self.tabs()[k].id != tab_id;
                    assert(self.tabs()[i as int].id == tab_id);
                    if c < i {
                    } else if c > i {
                        assert(self.tabs()[i as int].id != tab_id);
                    }
                }
                return Some(i);
            }
            i = i + 1;
        }
        None
    }

    /// Makes the first tab with identifier `tab_id` active.
    pub fn activate_tab(&mut self, tab_id: TabId) -> (r: Result<(), TabsError>)
        requires
            old(self).wf(),
        ensures
            activate_outcome(*old(self), *final(self), tab_id, r),
    {
        match self.tab_position(tab_id) {
            Some(i) => {
                self.active_tab = i;
                Ok(())
            },
            None => Err(TabsError::TabNotFound(tab_id)),
        }
    }

    /// Renames the first tab with identifier `tab_id`.
    #[verifier::rlimit(40)]
    pub fn rename_tab(&mut self, tab_id: TabId, title: String) -> (r: Result<(), TabsError>)
        requires
            old(self).wf(),
        ensures
            final(self).wf(),
            final(self).active() == old(self).active(),
            final(self).allocator() == old(self).allocator(),
            match tab_index(old(self).tabs(), tab_id) {
                Some(i) => r is Ok && final(self).tabs() == old(self).tabs().update(
                    i,
                    TabModel { title: title@, ..old(self).tabs()[i] },
                ),
                None => r == Err::<(), TabsError>(TabsError::TabNotFound(tab_id)) && final(self).tabs() == old(self).tabs(),
            },
    {
        match self.tab_position(tab_id) {
            Some(i) => {
                let mut tab = self.tabs.remove(i);
                tab.runtime.title = title;
                self.tabs.insert(i, tab);
                proof {
                    self.lemma_tabs();
                    let ts = self.tabs();
                    let olds = old(self).tabs();
                    assert(ts =~= olds.update(i as int, TabModel { title: title@, ..olds[i as int] }));
                    lemma_retitle(olds, self.allocator().next_tab_raw(), self.allocator().next_pane_raw(), i as int, title@);
                }
                Ok(())
            },
            None => Err(TabsError::TabNotFound(tab_id)),
        }
    }

    /// Takes entry `j` of tab `i` out, to be put back by `put_entry`.
    fn take_entry(&mut self, i: usize, j: usize) -> (e: PaneEntry)
        requires
            i < old(self).tabs@.len(),
            j < old(self).tabs@[i as int].panes@.len(),
        ensures
            final(self).tabs@.len() == old(self).tabs@.len(),
            forall|k: int| 0 <= k < old(self).tabs@.len() && k != i ==> final(self).tabs@[k] == old(self).tabs@[k],
            final(self).tabs@[i as int].runtime == old(self).tabs@[i as int].runtime,
            final(self).tabs@[i as int].panes@ == old(self).tabs@[i as int].panes@.remove(j as int),
            e == old(self).tabs@[i as int].panes@[j as int],
            final(self).active_tab == old(self).active_tab,
            final(self).ids == old(self).ids,
    {
        let mut tab = self.tabs.remove(i);
        let e = tab.panes.remove(j);
        self.tabs.insert(i, tab);
        e
    }

    /// Puts an entry taken by `take_entry` back.
    fn put_entry(&mut self, i: usize, j: usize, e: PaneEntry)
        requires
            i < old(self).tabs@.len(),
            j <= old(self).tabs@[i as int].panes@.len(),
        ensures
            final(self).tabs@.len() == old(self).tabs@.len(),
            forall|k: int| 0 <= k < old(self).tabs@.len() && k != i ==> final(self).tabs@[k] == old(self).tabs@[k],
            final(self).tabs@[i as int].runtime == old(self).tabs@[i as int].runtime,
            final(self).tabs@[i as int].panes@ == old(self).tabs@[i as int].panes@.insert(j as int, e),
            final(self).active_tab == old(self).active_tab,
            final(self).ids == old(self).ids,
    {
        let mut tab = self.tabs.remove(i);
        tab.panes.insert(j, e);
        self.tabs.insert(i, tab);
    }

    /// Taking an entry out and putting another back in its place replaces
    /// it in the model.
    proof fn lemma_take_put(before: &TabManager, after: &TabManager, i: int, j: int, e: PaneEntry)
        requires
            0 <= i < before.tabs@.len(),
            0 <= j < before.tabs@[i].panes@.len(),
            after.tabs@.len() == before.tabs@.len(),
            forall|k: int| 0 <= k < before.tabs@.len() && k != i ==> after.tabs@[k] == before.tabs@[k],
            after.tabs@[i].runtime == before.tabs@[i].runtime,
            after.tabs@[i].panes@ == before.tabs@[i].panes@.remove(j).insert(j, e),
            after.active_tab == before.active_tab,
            after.ids == before.ids,
        ensures
            after.tabs() == with_entry(before.tabs(), i, j, pane_model(e)),
            after.active() == before.active(),
            after.allocator() == before.allocator(),
    {
        let ts = after.tabs();
        let w = with_entry(before.tabs(), i, j, pane_model(e));
        assert(ts.len() == w.len());
        assert forall|k: int| 0 <= k < ts.len() implies ts[k] == w[k] by {
            if k == i {
                assert(after.tabs@[i].panes@ =~= before.tabs@[i].panes@.update(j, e));
                assert(ts[k].panes =~= w[k].panes);
            }
        }
        assert(ts =~= w);
    }

    /// Where the entry of pane `pane_id` is: in the first tab that has one.
    fn find_pane(&self, pane_id: PaneId) -> (r: Option<(usize, usize)>)
        requires
            self.wf(),
        ensures
            match r {
                Some((i, j)) => pane_location(self.tabs(), pane_id) == Some((i as int, j as int)) && i < self.tabs().len()
                    && j < self.tabs()[i as int].panes.len() && i < self.tabs@.len() && j < self.tabs@[i as int].panes@.len()
                    && self.tabs()[i as int].panes[j as int].id == pane_id,
                None => pane_location(self.tabs(), pane_id) is None,
            },
    {
        proof {
            self.lemma_tabs();
            reveal(tabs_ok);
        }
        let mut i: usize = 0;
        while i < self.tabs.len()
            invariant
                0 <= i <= self.tabs@.len(),
                self.wf(),
                self.tabs().len() == self.tabs@.len(),
                forall|k: int| 0 <= k < self.tabs@.len() ==> #[trigger] self.tabs()[k] == tab_model(self.tabs@[k]),
                forall|k: int| 0 <= k < i ==> entry_of((#[trigger] self.tabs()[k]).panes, pane_id) is None,
            decreases self.tabs@.len() - i,
        {
            let ghost t = self.tabs()[i as int];
            proof {
                reveal(tabs_ok);
                assert(tab_ok(t));
            }
            let mut j: usize = 0;
            while j < self.tabs[i].panes.len()
                invariant
                    0 <= j <= self.tabs@[i as int].panes@.len(),
                    i < self.tabs@.len(),
                    t == self.tabs()[i as int],
                    t == tab_model(self.tabs@[i as int]),
                    tab_ok(t),
                    self.tabs().len() == self.tabs@.len(),
                    forall|k: int| 0 <= k < i ==> entry_of((#[trigger] self.tabs()[k]).panes, pane_id) is None,
                    forall|m: int| 0 <= m < j ==> (#[trigger] t.panes[m]).id != pane_id,
                decreases self.tabs@[i as int].panes@.len() - j,
            {
                if self.tabs[i].panes[j].id == pane_id {
                    proof {
                        lemma_entry_unique(t.panes, pane_id, j as int);
                        let c = choose|c: int|
                            0 <= c < self.tabs().len() && entry_of(self.tabs()[c].panes, pane_id) is Some && forall|k: int|
                                0 <= k < c ==> entry_of(self.tabs()[k].panes, pane_id) is None;
                        if c < i {
                            assert(entry_of(self.tabs()[c].panes, pane_id) is None);
                        } else if c > i {
                            assert(entry_of(self.tabs()[i as int].panes, pane_id) is None);
                        }
                    }
                    return Some((i, j));
                }
                j = j + 1;
            }
            proof {
                assert(entry_of(t.panes, pane_id) is None) by {
                    if exists|m: int| 0 <= m < t.panes.len() && t.panes[m].id == pane_id {
                        let m = choose|m: int| 0 <= m < t.panes.len() && t.panes[m].id == pane_id;
                        assert(t.panes[m].id != pane_id);
                    }
                }
            }
            i = i + 1;
        }
        None
    }

    /// Where the entry of the focused pane of the active tab is in it.
    fn active_entry(&self) -> (r: Option<usize>)
        requires
            self.wf(),
        ensures
            match r {
                Some(j) => entry_of(self.active_model().panes, self.active_model().focused) == Some(j as int)
                    && j < self.tabs@[self.active()].panes@.len(),
                None => entry_of(self.active_model().panes, self.active_model().focused) is None,
            },
    {
        proof {
            self.lemma_tabs();
            reveal(tabs_ok);
        }
        let pane_id = self.active_pane_id();
        let ghost t = self.active_model();
        let i = self.active_tab;
        let mut j: usize = 0;
        while j < self.tabs[i].panes.len()
            invariant
                0 <= j <= self.tabs@[i as int].panes@.len(),
                i < self.tabs@.len(),
                i == self.active(),
                t == self.active_model(),
                t == tab_model(self.tabs@[i as int]),
                tab_ok(t),
                pane_id == t.focused,
                forall|m: int| 0 <= m < j ==> (#[trigger] t.panes[m]).id != pane_id,
            decreases self.tabs@[i as int].panes@.len() - j,
        {
            if self.tabs[i].panes[j].id == pane_id {
                proof {
                    lemma_entry_unique(t.panes, pane_id, j as int);
                }
                return Some(j);
            }
            j = j + 1;
        }
        proof {
            if exists|m: int| 0 <= m < t.panes.len() && t.panes[m].id == pane_id {
                let m = choose|m: int| 0 <= m < t.panes.len() && t.panes[m].id == pane_id;
                assert(t.panes[m].id != pane_id);
            }
        }
        None
    }

    /// The title of pane `pane_id`.
    pub fn pane_title(&self, pane_id: PaneId) -> (r: Result<&str, TabsError>)
        requires
            self.wf(),
        ensures
            match pane_location(self.tabs(), pane_id) {
                Some((i, j)) => r matches Ok(t) && t@ == self.tabs()[i].panes[j].title,
                None => r == Err::<&str, TabsError>(TabsError::PaneNotFound(pane_id)),
            },
    {
        match self.find_pane(pane_id) {
            Some((i, j)) => {
                proof {
                    self.lemma_tabs();
                }
                Ok(self.tabs[i].panes[j].title.as_str())
            },
            None => Err(TabsError::PaneNotFound(pane_id)),
        }
    }

    /// The title of the focused pane of the active tab.
    pub fn active_pane_title(&self) -> (r: Result<&str, TabsError>)
        requires
            self.wf(),
        ensures
            match pane_location(self.tabs(), self.active_model().focused) {
                Some((i, j)) => r matches Ok(t) && t@ == self.tabs()[i].panes[j].title,
                None => r == Err::<&str, TabsError>(TabsError::PaneNotFound(self.active_model().focused)),
            },
    {
        self.pane_title(self.active_pane_id())
    }

    /// Renames pane `pane_id`.
    pub fn rename_pane(&mut self, pane_id: PaneId, title: String) -> (r: Result<(), TabsError>)
        requires
            old(self).wf(),
        ensures
            final(self).wf(),
            final(self).active() == old(self).active(),
            final(self).allocator() == old(self).allocator(),
            match pane_location(old(self).tabs(), pane_id) {
                Some((i, j)) => r is Ok && final(self).tabs() == with_entry(
                    old(self).tabs(),
                    i,
                    j,
                    PaneModel { title: title@, ..old(self).tabs()[i].panes[j] },
                ),
                None => r == Err::<(), TabsError>(TabsError::PaneNotFound(pane_id)) && final(self).tabs() == old(self).tabs(),
            },
    {
        match self.find_pane(pane_id) {
            Some((i, j)) => {
                proof {
                    lemma_entry_screen(self.tabs(), self.allocator().next_tab_raw(), self.allocator().next_pane_raw(), i as int, j as int);
                }
                let mut e = self.take_entry(i, j);
                e.title = title;
                self.put_entry(i, j, e);
                proof {
                    old(self).lemma_tabs();
                    TabManager::lemma_take_put(old(self), self, i as int, j as int, e);
                    assert(pane_model(e) == PaneModel { title: title@, ..old(self).tabs()[i as int].panes[j as int] });
                    lemma_with_entry(old(self).tabs(), self.allocator().next_tab_raw(), self.allocator().next_pane_raw(), i as int, j as int, pane_model(e));
                }
                Ok(())
            },
            None => Err(TabsError::PaneNotFound(pane_id)),
        }
    }

    /// Shows the live screen of the focused pane of the active tab again.
    pub fn scroll_active_pane_to_bottom(&mut self) -> (r: Result<(), TabsError>)
        requires
            old(self).wf(),
        ensures
            scroll_to_bottom_outcome(*old(self), *final(self), r),
    {
        self.scroll_active_pane_to(0)
    }

    /// Scrolls the focused pane of the active tab back `rows`.
    fn scroll_active_pane_to(&mut self, rows: usize) -> (r: Result<(), TabsError>)
        requires
            old(self).wf(),
        ensures
            final(self).wf(),
            final(self).active() == old(self).active(),
            final(self).allocator() == old(self).allocator(),
            match entry_of(old(self).active_model().panes, old(self).active_model().focused) {
                Some(j) => r is Ok && pane_scrolled(old(self).tabs(), final(self).tabs(), old(self).active(), j, rows as int),
                None => r == Err::<(), TabsError>(TabsError::PaneNotFound(old(self).active_model().focused))
                    && final(self).tabs() == old(self).tabs(),
            },
    {
        let pane_id = self.active_pane_id();
        let j = match self.active_entry() {
            Some(j) => j,
            None => return Err(TabsError::PaneNotFound(pane_id)),
        };
        let i = self.active_tab;
        proof {
            self.lemma_tabs();
            reveal(tabs_ok);
            assert(tab_ok(self.tabs()[i as int]));
            assert(self.tabs()[i as int].panes[j as int].screen.wf());
        }
        let mut e = self.take_entry(i, j);
        e.screen.set_scrollback(rows);
        self.put_entry(i, j, e);
        proof {
            old(self).lemma_tabs();
            TabManager::lemma_take_put(old(self), self, i as int, j as int, e);
            lemma_with_entry(old(self).tabs(), self.allocator().next_tab_raw(), self.allocator().next_pane_raw(), i as int, j as int, pane_model(e));
            assert(pane_model(e) == with_screen(old(self).active_model().panes[j as int], e.screen));
            assert(scrolled_to(old(self).active_model().panes[j as int].screen, e.screen, rows as int));
            assert(self.tabs() == with_entry(old(self).tabs(), i as int, j as int, with_screen(old(self).active_model().panes[j as int], e.screen)));
            assert(pane_scrolled(old(self).tabs(), self.tabs(), i as int, j as int, rows as int));
        }
        Ok(())
    }

    /// The tabs as the tab bar shows them.
    pub fn tab_summaries(&self) -> (s: Vec<RuntimeTabSummary>)
        requires
            self.wf(),
        ensures
            s@.len() == self.tabs().len(),
            forall|i: int|
                0 <= i < s@.len() ==> (#[trigger] s@[i]).id == self.tabs()[i].id && s@[i].title@ == self.tabs()[i].title
                    && s@[i].active == (self.tabs()[i].id == self.active_model().id),
    {
        proof {
            self.lemma_tabs();
        }
        let active = self.active_tab_id();
        let mut out: Vec<RuntimeTabSummary> = Vec::new();
        let mut i: usize = 0;
        while i < self.tabs.len()
            invariant
                0 <= i <= self.tabs@.len(),
                out@.len() == i,
                active == self.active_model().id,
                forall|k: int|
                    0 <= k < i ==> (#[trigger] out@[k]).id == self.tabs()[k].id && out@[k].title@ == self.tabs()[k].title
                        && out@[k].active == (self.tabs()[k].id == active),
                forall|k: int| 0 <= k < self.tabs@.len() ==> #[trigger] self.tabs()[k] == tab_model(self.tabs@[k]),
            decreases self.tabs@.len() - i,
        {
            let t = &self.tabs[i].runtime;
            out.push(RuntimeTabSummary { id: t.id, title: owned(t.title.as_str()), active: t.id == active });
            i = i + 1;
        }
        out
    }
}


/// The offset a scroll of `lines` more rows back asks for.
pub open spec fn scrolled_up_by(offset: int, lines: int) -> int {
    if offset + lines <= usize::MAX {
        offset + lines
    } else {
        usize::MAX as int
    }
}

/// The offset a scroll of `lines` rows forward asks for.
pub open spec fn scrolled_down_by(offset: int, lines: int) -> int {
    if offset >= lines {
        offset - lines
    } else {
        0
    }
}

/// `after` is `before` with the screen of entry `j` of tab `i` scrolled to
/// some offset.
pub open spec fn pane_scrolled_somewhere(before: Seq<TabModel>, after: Seq<TabModel>, i: int, j: int) -> bool {
    exists|rows: int| #[trigger] pane_scrolled(before, after, i, j, rows)
}

/// `b` is `a` after the output `bytes`: the escape state and screen mode
/// follow the bytes, the limits stay, and each history only grows by
/// screens that hold text (or is emptied on entering the alternate screen).
pub open spec fn fed(a: TerminalScreen, b: TerminalScreen, bytes: Seq<u8>) -> bool {
    &&& b.wf()
    &&& (b.esc(), b.mode()) == esc_run(a.esc(), a.mode(), bytes)
    &&& b.history_limits() == a.history_limits()
    &&& grown(a.normal_history(), b.normal_history(), a.history_limits().0)
    &&& grown(a.alt_history(), b.alt_history(), a.history_limits().1)
}

/// `after` is `before` with the output `bytes` given to the screen of entry
/// `j` of tab `i`.
pub open spec fn pane_fed(before: Seq<TabModel>, after: Seq<TabModel>, i: int, j: int, bytes: Seq<u8>) -> bool {
    exists|s: TerminalScreen|
        #[trigger] fed(before[i].panes[j].screen, s, bytes) && after == with_entry(before, i, j, with_screen(before[i].panes[j], s))
}

/// Whether a screen is showing something older than its live state.
pub open spec fn shows_history(s: TerminalScreen) -> bool {
    s.normal_view() is Some || s.alt_view() is Some
}

/// The rows a screen shows from its history, when it shows one.
pub open spec fn history_view(s: TerminalScreen) -> Option<Seq<Seq<CellModel>>> {
    if s.normal_view() is Some {
        s.normal_view()
    } else {
        s.alt_view()
    }
}

/// What a screen shows: the kept screen shown when scrolled back through
/// its history, else the emulator's live screen.
pub open spec fn shown_lines(s: TerminalScreen) -> Seq<Seq<CellModel>> {
    match history_view(s) {
        Some(h) => h,
        None => s.live_screen(),
    }
}

/// A screen shows something older than its live screen.
pub open spec fn scrolled_back_of(s: TerminalScreen) -> bool {
    shows_history(s) || s.shown_offset() > 0
}

/// Where a screen's cursor is drawn: none while it is scrolled back, else
/// the emulator's cursor.
pub open spec fn shown_cursor(s: TerminalScreen) -> Option<(u16, u16)> {
    if scrolled_back_of(s) {
        None
    } else {
        Some(s.cursor())
    }
}

impl TabManager {
    /// Where the screen of pane `pane_id` is.
    fn find_screen(&self, pane_id: PaneId) -> (r: Option<&TerminalScreen>)
        requires
            self.wf(),
        ensures
            match pane_location(self.tabs(), pane_id) {
                Some((i, j)) => r matches Some(s) && *s == self.tabs()[i].panes[j].screen && s.wf(),
                None => r is None,
            },
    {
        match self.find_pane(pane_id) {
            Some((i, j)) => {
                proof {
                    self.lemma_tabs();
                    lemma_entry_screen(self.tabs(), self.allocator().next_tab_raw(), self.allocator().next_pane_raw(), i as int, j as int);
                }
                Some(&self.tabs[i].panes[j].screen)
            },
            None => None,
        }
    }

    /// Scrolls the focused pane of the active tab `lines` rows further back.
    pub fn scroll_active_pane_up_lines(&mut self, lines: u16) -> (r: Result<(), TabsError>)
        requires
            old(self).wf(),
        ensures
            scroll_up_lines_outcome(*old(self), *final(self), lines, r),
    {
        let pane_id = self.active_pane_id();
        let j = match self.active_entry() {
            Some(j) => j,
            None => return Err(TabsError::PaneNotFound(pane_id)),
        };
        proof {
            self.lemma_tabs();
        }
        let current = self.tabs[self.active_tab].panes[j].screen.scrollback();
        let next = current.saturating_add(lines as usize);
        let r = self.scroll_active_pane_to(next);
        proof {
            if known_offset(old(self).active_model().panes[j as int].screen) is None {
                assert(pane_scrolled(old(self).tabs(), self.tabs(), old(self).active(), j as int, next as int));
            }
        }
        r
    }

    /// Scrolls the focused pane of the active tab `lines` rows forward.
    pub fn scroll_active_pane_down_lines(&mut self, lines: u16) -> (r: Result<(), TabsError>)
        requires
            old(self).wf(),
        ensures
            scroll_down_lines_outcome(*old(self), *final(self), lines, r),
    {
        let pane_id = self.active_pane_id();
        let j = match self.active_entry() {
            Some(j) => j,
            None => return Err(TabsError::PaneNotFound(pane_id)),
        };
        proof {
            self.lemma_tabs();
        }
        let current = self.tabs[self.active_tab].panes[j].screen.scrollback();
        let next = current.saturating_sub(lines as usize);
        let r = self.scroll_active_pane_to(next);
        proof {
            if known_offset(old(self).active_model().panes[j as int].screen) is None {
                assert(pane_scrolled(old(self).tabs(), self.tabs(), old(self).active(), j as int, next as int));
            }
        }
        r
    }

    /// The number of rows of the screen of the focused pane of the active
    /// tab.
    fn active_visible_rows(&self) -> (r: Result<u16, TabsError>)
        requires
            self.wf(),
        ensures
            match entry_of(self.active_model().panes, self.active_model().focused) {
                Some(j) => r == Ok::<u16, TabsError>(self.active_model().panes[j].screen.dims().0),
                None => r == Err::<u16, TabsError>(TabsError::PaneNotFound(self.active_model().focused)),
            },
    {
        let pane_id = self.active_pane_id();
        match self.active_entry() {
            Some(j) => Ok(self.tabs[self.active_tab].panes[j].screen.size().0),
            None => Err(TabsError::PaneNotFound(pane_id)),
        }
    }

    /// Scrolls the focused pane of the active tab `pages` screens back.
    pub fn scroll_active_pane_up_pages(&mut self, pages: u16) -> (r: Result<(), TabsError>)
        requires
            old(self).wf(),
        ensures
            scroll_pages_outcome(*old(self), *final(self), pages, true, r),
    {
        let page_size = match self.active_visible_rows() {
            Ok(rows) => rows,
            Err(e) => return Err(e),
        };
        let a: u32 = page_size as u32;
        let b: u32 = pages as u32;
        assert(a * b <= 0xffff * 0xffff) by (nonlinear_arith)
            requires
                a <= 0xffff,
                b <= 0xffff,
        ;
        let product: u32 = a * b;
        let lines: u16 = if product > u16::MAX as u32 { u16::MAX } else { product as u16 };
        assert(lines as int == page_lines(page_size as int, pages as int));
        let r = self.scroll_active_pane_up_lines(lines);
        proof {
            let j = entry_of(old(self).active_model().panes, old(self).active_model().focused)->0;
            if let Some(o) = known_offset(old(self).active_model().panes[j].screen) {
                assert(pane_scrolled(old(self).tabs(), self.tabs(), old(self).active(), j, scrolled_up_by(o, lines as int)));
            }
        }
        r
    }

    /// Scrolls the focused pane of the active tab `pages` screens forward.
    pub fn scroll_active_pane_down_pages(&mut self, pages: u16) -> (r: Result<(), TabsError>)
        requires
            old(self).wf(),
        ensures
            scroll_pages_outcome(*old(self), *final(self), pages, false, r),
    {
        let page_size = match self.active_visible_rows() {
            Ok(rows) => rows,
            Err(e) => return Err(e),
        };
        let a: u32 = page_size as u32;
        let b: u32 = pages as u32;
        assert(a * b <= 0xffff * 0xffff) by (nonlinear_arith)
            requires
                a <= 0xffff,
                b <= 0xffff,
        ;
        let product: u32 = a * b;
        let lines: u16 = if product > u16::MAX as u32 { u16::MAX } else { product as u16 };
        assert(lines as int == page_lines(page_size as int, pages as int));
        let r = self.scroll_active_pane_down_lines(lines);
        proof {
            let j = entry_of(old(self).active_model().panes, old(self).active_model().focused)->0;
            if let Some(o) = known_offset(old(self).active_model().panes[j].screen) {
                assert(pane_scrolled(old(self).tabs(), self.tabs(), old(self).active(), j, scrolled_down_by(o, lines as int)));
            }
        }
        r
    }

    /// Hands `bytes` to the screen of the focused pane of the active tab, as
    /// if its shell had written them.
    pub fn inject_bytes_into_active_pane_screen(&mut self, bytes: &[u8]) -> (r: Result<(), TabsError>)
        requires
            old(self).wf(),
        ensures
            final(self).wf(),
            final(self).active() == old(self).active(),
            final(self).allocator() == old(self).allocator(),
            match entry_of(old(self).active_model().panes, old(self).active_model().focused) {
                Some(j) => r is Ok && pane_fed(old(self).tabs(), final(self).tabs(), old(self).active(), j, bytes@),
                None => r == Err::<(), TabsError>(TabsError::PaneNotFound(old(self).active_model().focused))
                    && final(self).tabs() == old(self).tabs(),
            },
    {
        let pane_id = self.active_pane_id();
        let j = match self.active_entry() {
            Some(j) => j,
            None => return Err(TabsError::PaneNotFound(pane_id)),
        };
        let i = self.active_tab;
        proof {
            self.lemma_tabs();
            lemma_entry_screen(self.tabs(), self.allocator().next_tab_raw(), self.allocator().next_pane_raw(), i as int, j as int);
        }
        let mut e = self.take_entry(i, j);
        e.screen.process_bytes(bytes);
        self.put_entry(i, j, e);
        proof {
            old(self).lemma_tabs();
            TabManager::lemma_take_put(old(self), self, i as int, j as int, e);
            lemma_with_entry(old(self).tabs(), self.allocator().next_tab_raw(), self.allocator().next_pane_raw(), i as int, j as int, pane_model(e));
            assert(pane_model(e) == with_screen(old(self).active_model().panes[j as int], e.screen));
            assert(fed(old(self).active_model().panes[j as int].screen, e.screen, bytes@));
            assert(self.tabs() == with_entry(old(self).tabs(), i as int, j as int, with_screen(old(self).active_model().panes[j as int], e.screen)));
            assert(pane_fed(old(self).tabs(), self.tabs(), i as int, j as int, bytes@));
        }
        Ok(())
    }

    /// Hands `bytes`, written by the shell of pane `pane_id`, to its screen.
    pub fn feed_pane_output(&mut self, pane_id: PaneId, bytes: &[u8]) -> (r: Result<(), TabsError>)
        requires
            old(self).wf(),
        ensures
            final(self).wf(),
            final(self).active() == old(self).active(),
            final(self).allocator() == old(self).allocator(),
            match pane_location(old(self).tabs(), pane_id) {
                Some((i, j)) => r is Ok && 0 <= i < old(self).tabs().len() && 0 <= j < old(self).tabs()[i].panes.len()
                    && pane_fed(old(self).tabs(), final(self).tabs(), i, j, bytes@),
                None => r == Err::<(), TabsError>(TabsError::PaneNotFound(pane_id)) && final(self).tabs() == old(self).tabs(),
            },
    {
        let (i, j) = match self.find_pane(pane_id) {
            Some(loc) => loc,
            None => return Err(TabsError::PaneNotFound(pane_id)),
        };
        proof {
            self.lemma_tabs();
            lemma_entry_screen(self.tabs(), self.allocator().next_tab_raw(), self.allocator().next_pane_raw(), i as int, j as int);
        }
        let mut e = self.take_entry(i, j);
        e.screen.process_bytes(bytes);
        self.put_entry(i, j, e);
        proof {
            old(self).lemma_tabs();
            TabManager::lemma_take_put(old(self), self, i as int, j as int, e);
            lemma_with_entry(old(self).tabs(), self.allocator().next_tab_raw(), self.allocator().next_pane_raw(), i as int, j as int, pane_model(e));
            assert(pane_model(e) == with_screen(old(self).tabs()[i as int].panes[j as int], e.screen));
            assert(fed(old(self).tabs()[i as int].panes[j as int].screen, e.screen, bytes@));
            assert(self.tabs() == with_entry(old(self).tabs(), i as int, j as int, with_screen(old(self).tabs()[i as int].panes[j as int], e.screen)));
            assert(pane_fed(old(self).tabs(), self.tabs(), i as int, j as int, bytes@));
        }
        Ok(())
    }
}


impl TabManager {
    /// The rows pane `pane_id` shows, joined by line breaks.
    pub fn pane_text(&self, pane_id: PaneId) -> (r: Result<String, TabsError>)
        requires
            self.wf(),
        ensures
            match pane_location(self.tabs(), pane_id) {
                Some((i, j)) => r is Ok && (history_view(self.tabs()[i].panes[j].screen) matches Some(v) ==> r->Ok_0@
                    == joined_lines(v.map_values(|l: Seq<CellModel>| row_text(l)))),
                None => r == Err::<String, TabsError>(TabsError::PaneNotFound(pane_id)),
            },
    {
        match self.find_screen(pane_id) {
            Some(screen) => {
                let rows = screen.visible_rows();
                let text = join_rows(&rows);
                proof {
                    if let Some(v) = history_view(*screen) {
                        assert(rows@.map_values(|s: String| s@) =~= v.map_values(|l: Seq<CellModel>| row_text(l)));
                    }
                }
                Ok(text)
            },
            None => Err(TabsError::PaneNotFound(pane_id)),
        }
    }

    /// The rows the focused pane of the active tab shows, joined by line
    /// breaks.
    pub fn active_pane_text(&self) -> (r: Result<String, TabsError>)
        requires
            self.wf(),
        ensures
            match pane_location(self.tabs(), self.active_model().focused) {
                Some((i, j)) => r is Ok && (history_view(self.tabs()[i].panes[j].screen) matches Some(v) ==> r->Ok_0@
                    == joined_lines(v.map_values(|l: Seq<CellModel>| row_text(l)))),
                None => r == Err::<String, TabsError>(TabsError::PaneNotFound(self.active_model().focused)),
            },
    {
        self.pane_text(self.active_pane_id())
    }

    /// Whether the focused pane of the active tab shows something older
    /// than its live screen.
    pub fn active_pane_is_scrolled_back(&self) -> (r: Result<bool, TabsError>)
        requires
            self.wf(),
        ensures
            match pane_location(self.tabs(), self.active_model().focused) {
                Some((i, j)) => r == Ok::<bool, TabsError>(scrolled_back_of(self.tabs()[i].panes[j].screen)),
                None => r == Err::<bool, TabsError>(TabsError::PaneNotFound(self.active_model().focused)),
            },
    {
        let pane_id = self.active_pane_id();
        match self.find_screen(pane_id) {
            Some(screen) => Ok(screen.shows_history_snapshot() || screen.scrollback() > 0),
            None => Err(TabsError::PaneNotFound(pane_id)),
        }
    }

    /// The lines pane `pane_id` shows.
    pub fn pane_lines(&self, pane_id: PaneId) -> (r: Result<Vec<ScreenLine>, TabsError>)
        requires
            self.wf(),
        ensures
            match pane_location(self.tabs(), pane_id) {
                Some((i, j)) => r is Ok && lines_model(r->Ok_0@) == shown_lines(self.tabs()[i].panes[j].screen),
                None => r is Err && r->Err_0 == TabsError::PaneNotFound(pane_id),
            },
    {
        match self.find_screen(pane_id) {
            Some(screen) => Ok(screen.visible_lines()),
            None => Err(TabsError::PaneNotFound(pane_id)),
        }
    }

    /// The text of pane `pane_id` between two (row, column) points, the
    /// earlier first.
    pub fn pane_selection_text(&self, pane_id: PaneId, start: (u16, u16), end: (u16, u16)) -> (r: Result<String, TabsError>)
        requires
            self.wf(),
        ensures
            match pane_location(self.tabs(), pane_id) {
                Some((i, j)) => r is Ok && r->Ok_0@ == selection_text(shown_lines(self.tabs()[i].panes[j].screen), start, end),
                None => r == Err::<String, TabsError>(TabsError::PaneNotFound(pane_id)),
            },
    {
        match self.pane_lines(pane_id) {
            Ok(lines) => Ok(selection_text_from_lines(&lines, start, end)),
            Err(e) => Err(e),
        }
    }

    /// Where the cursor of pane `pane_id` is, as (row, column); none while
    /// the pane shows something older than its live screen.
    pub fn pane_cursor(&self, pane_id: PaneId) -> (r: Result<Option<(u16, u16)>, TabsError>)
        requires
            self.wf(),
        ensures
            match pane_location(self.tabs(), pane_id) {
                Some((i, j)) => r == Ok::<Option<(u16, u16)>, TabsError>(shown_cursor(self.tabs()[i].panes[j].screen)),
                None => r == Err::<Option<(u16, u16)>, TabsError>(TabsError::PaneNotFound(pane_id)),
            },
    {
        match self.find_screen(pane_id) {
            Some(screen) => {
                if screen.shows_history_snapshot() || screen.scrollback() > 0 {
                    Ok(None)
                } else {
                    Ok(Some(screen.cursor_position()))
                }
            },
            None => Err(TabsError::PaneNotFound(pane_id)),
        }
    }
}


/// Moving the focus of layout `root` from `focused` in `direction` lands on
/// `target`.
pub open spec fn focus_moved(root: NodeModel, focused: PaneId, direction: FocusMoveDirection, target: PaneId) -> bool {
    forall|c: int|
        is_first_occurrence(root.panes(), c, focused) ==> focus_target(
            node_placements(root, focus_area(), focused),
            node_placements(root, focus_area(), focused)[c].rect,
            focused,
            direction,
            target,
        )
}

/// The tabs with the layout of tab `i` replaced.
pub open spec fn with_layout(tabs: Seq<TabModel>, i: int, root: NodeModel, focused: PaneId) -> Seq<TabModel> {
    tabs.update(i, TabModel { root, focused, ..tabs[i] })
}

/// Replacing the layout of a tab by a well-formed one over the same panes
/// keeps the tabs well formed.
proof fn lemma_relayout(tabs: Seq<TabModel>, nt: u64, np: u64, i: int, root: NodeModel, focused: PaneId)
    requires
        tabs_ok(tabs, nt, np),
        0 <= i < tabs.len(),
        root.wf(),
        root.panes().contains(focused),
        root.panes() == tabs[i].root.panes(),
    ensures
        tabs_ok(with_layout(tabs, i, root, focused), nt, np),
{
    reveal(tabs_ok);
    let ts = with_layout(tabs, i, root, focused);
    assert forall|k: int| 0 <= k < ts.len() implies tab_ok(#[trigger] ts[k]) && ts[k].id@ < nt by {
        assert(tab_ok(tabs[k]));
        assert(tabs[k].id@ < nt);
    }
    assert forall|k: int, j: int| 0 <= k < ts.len() && 0 <= j < ts[k].panes.len() implies (#[trigger] ts[k].panes[j]).id@ < np by {
        assert(tabs[k].panes[j].id@ < np);
    }
}

impl TabManager {
    /// Takes the active tab out, to be put back by `put_active_tab`.
    fn take_active_tab(&mut self) -> (t: TabEntry)
        requires
            old(self).wf(),
        ensures
            t == old(self).tabs@[old(self).active()],
            tab_model(t) == old(self).active_model(),
            tab_ok(tab_model(t)),
            t.runtime.layout.wf(),
            t.runtime.layout.panes().len() < 65536,
            final(self).tabs@ == old(self).tabs@.remove(old(self).active()),
            final(self).active_tab == old(self).active_tab,
            final(self).ids == old(self).ids,
    {
        proof {
            self.lemma_tabs();
            reveal(tabs_ok);
            assert(tab_ok(self.tabs()[self.active()]));
        }
        self.tabs.remove(self.active_tab)
    }

    /// Puts the active tab back.
    fn put_active_tab(&mut self, t: TabEntry)
        requires
            old(self).active_tab <= old(self).tabs@.len(),
        ensures
            final(self).tabs@ == old(self).tabs@.insert(old(self).active_tab as int, t),
            final(self).active_tab == old(self).active_tab,
            final(self).ids == old(self).ids,
    {
        self.tabs.insert(self.active_tab, t);
    }

    /// Taking the active tab out and putting another back replaces it in the
    /// model.
    proof fn lemma_replace_active(before: &TabManager, after: &TabManager, t: TabEntry)
        requires
            before.wf(),
            after.tabs@ == before.tabs@.remove(before.active()).insert(before.active(), t),
            after.active_tab == before.active_tab,
        ensures
            after.tabs() == before.tabs().update(before.active(), tab_model(t)),
            after.active() == before.active(),
    {
        assert(after.tabs@ =~= before.tabs@.update(before.active(), t));
        assert(after.tabs() =~= before.tabs().update(before.active(), tab_model(t)));
    }

    /// Moves the focus of the active tab to the nearest pane in `direction`.
    pub fn move_focus(&mut self, direction: FocusMoveDirection) -> (r: Result<PaneId, TabsError>)
        requires
            old(self).wf(),
        ensures
            move_focus_outcome(*old(self), *final(self), direction, r),
    {
        let mut tab = self.take_active_tab();
        let r = tab.runtime.layout.move_focus(direction);
        self.put_active_tab(tab);
        proof {
            TabManager::lemma_replace_active(old(self), self, tab);
            assert(tab_model(tab) == TabModel { root: old(self).active_model().root, focused: tab.runtime.layout.focused(), ..old(self).active_model() });
            lemma_relayout(old(self).tabs(), self.allocator().next_tab_raw(), self.allocator().next_pane_raw(), old(self).active(), old(self).active_model().root, tab.runtime.layout.focused());
        }
        match r {
            Ok(p) => Ok(p),
            Err(e) => Err(TabsError::Layout(e)),
        }
    }

    /// Moves the border of the focused pane of the active tab in `direction`,
    /// the tab filling `area`; whether it moved.
    pub fn resize_active_pane(&mut self, direction: ResizeDirection, area: Rect) -> (r: Result<bool, TabsError>)
        requires
            old(self).wf(),
        ensures
            resize_outcome(*old(self), *final(self), direction, area, r),
    {
        let mut tab = self.take_active_tab();
        let r = tab.runtime.layout.resize_focused(direction, area);
        self.put_active_tab(tab);
        proof {
            TabManager::lemma_replace_active(old(self), self, tab);
            let t = old(self).active_model();
            assert(tab_model(tab) == TabModel { root: tab.runtime.layout.root_model(), focused: t.focused, ..t });
            lemma_relayout(old(self).tabs(), self.allocator().next_tab_raw(), self.allocator().next_pane_raw(), old(self).active(), tab.runtime.layout.root_model(), t.focused);
            if r == Ok::<bool, LayoutError>(false) {
                assert(with_layout(old(self).tabs(), old(self).active(), t.root, t.focused) =~= old(self).tabs());
            }
        }
        match r {
            Ok(b) => Ok(b),
            Err(e) => Err(TabsError::Layout(e)),
        }
    }

    /// Focuses pane `pane_id` of the active tab.
    pub fn focus_pane(&mut self, pane_id: PaneId) -> (r: Result<(), TabsError>)
        requires
            old(self).wf(),
        ensures
            final(self).wf(),
            final(self).active() == old(self).active(),
            final(self).allocator() == old(self).allocator(),
            old(self).active_model().root.panes().contains(pane_id) ==> r is Ok && final(self).tabs() == with_layout(
                old(self).tabs(),
                old(self).active(),
                old(self).active_model().root,
                pane_id,
            ),
            !old(self).active_model().root.panes().contains(pane_id) ==> r == Err::<(), TabsError>(
                TabsError::Layout(LayoutError::PaneNotFound(pane_id)),
            ) && final(self).tabs() == old(self).tabs(),
    {
        let mut tab = self.take_active_tab();
        let r = tab.runtime.layout.focus_pane(pane_id);
        self.put_active_tab(tab);
        proof {
            TabManager::lemma_replace_active(old(self), self, tab);
            let t = old(self).active_model();
            assert(tab_model(tab) == TabModel { root: t.root, focused: tab.runtime.layout.focused(), ..t });
            lemma_relayout(old(self).tabs(), self.allocator().next_tab_raw(), self.allocator().next_pane_raw(), old(self).active(), t.root, tab.runtime.layout.focused());
            if r is Err {
                assert(with_layout(old(self).tabs(), old(self).active(), t.root, t.focused) =~= old(self).tabs());
            }
        }
        match r {
            Ok(()) => Ok(()),
            Err(e) => Err(TabsError::Layout(e)),
        }
    }

    /// Where each pane of the active tab stands when the tab fills `area`,
    /// and whether it is focused.
    pub fn placements(&self, area: Rect) -> (r: Result<Vec<(PaneId, Rect, bool)>, TabsError>)
        requires
            self.wf(),
        ensures
            r matches Ok(v) && v@.len() == node_placements(self.active_model().root, area, self.active_model().focused).len()
                && forall|k: int| 0 <= k < v@.len() ==> {
                    let p = #[trigger] node_placements(self.active_model().root, area, self.active_model().focused)[k];
                    v@[k] == (p.pane_id, p.rect, p.focused)
                },
    {
        proof {
            self.lemma_tabs();
            reveal(tabs_ok);
            assert(tab_ok(self.tabs()[self.active()]));
        }
        let ps = self.tabs[self.active_tab].runtime.layout.placements(area);
        let mut out: Vec<(PaneId, Rect, bool)> = Vec::new();
        let mut k: usize = 0;
        while k < ps.len()
            invariant
                0 <= k <= ps@.len(),
                out@.len() == k,
                forall|m: int| 0 <= m < k ==> out@[m] == (ps@[m].pane_id, ps@[m].rect, ps@[m].focused),
            decreases ps@.len() - k,
        {
            out.push((ps[k].pane_id, ps[k].rect, ps[k].focused));
            k = k + 1;
        }
        Ok(out)
    }
}


/// `after` is tab `before` with its focused pane split in two in
/// `direction`, the new pane `id` after it and focused, with an entry of its
/// own at the end whose shell works in `cwd`.
pub open spec fn pane_split(before: TabModel, after: TabModel, direction: SplitDirection, id: PaneId, cwd: Seq<char>) -> bool {
    &&& after.id == before.id
    &&& after.title == before.title
    &&& after.focused == id
    &&& after.root == split_model(before.root, before.focused, direction, id)
    &&& after.root.wf()
    &&& exists|k: int|
        is_first_occurrence(before.root.panes(), k, before.focused) && after.root.panes() == before.root.panes().insert(k + 1, id)
    &&& after.panes.len() == before.panes.len() + 1
    &&& after.panes.drop_last() == before.panes
    &&& after.panes.last().id == id
    &&& after.panes.last().title == default_pane_title(id)
    &&& after.panes.last().cwd == cwd
    &&& fresh_screen(after.panes.last().screen)
}

/// `after` is tab `before` with its focused pane taken out of its layout,
/// as `closed_model` says, and the pane it names focused.
pub open spec fn layout_closed(before: TabModel, after: TabModel) -> bool {
    &&& after.id == before.id
    &&& after.title == before.title
    &&& after.root == closed_model(before.root, before.focused).0
    &&& Some(after.focused) == closed_model(before.root, before.focused).1
    &&& after.root.wf()
    &&& after.root.panes().contains(after.focused)
    &&& exists|k: int|
        0 <= k < before.root.panes().len() && before.root.panes()[k] == before.focused && after.root.panes()
            == before.root.panes().remove(k)
}

/// Splitting a pane of a tab, with an identifier not handed out before,
/// keeps the tabs well formed.
proof fn lemma_split_tab(
    tabs: Seq<TabModel>,
    nt: u64,
    np: u64,
    i: int,
    t: TabModel,
    direction: SplitDirection,
    id: PaneId,
    cwd: Seq<char>,
)
    requires
        tabs_ok(tabs, nt, np),
        0 <= i < tabs.len(),
        np < u64::MAX,
        id@ == np,
        pane_split(tabs[i], t, direction, id, cwd),
        t.root.panes().len() < 65536,
    ensures
        tabs_ok(tabs.update(i, t), nt, (np + 1) as u64),
{
    reveal(tabs_ok);
    let ts = tabs.update(i, t);
    let old_t = tabs[i];
    assert(tab_ok(old_t));
    let k = choose|k: int|
        is_first_occurrence(old_t.root.panes(), k, old_t.focused) && t.root.panes() == old_t.root.panes().insert(k + 1, id);
    assert(t.root.panes()[k + 1] == id);
    assert forall|a: int, b: int| 0 <= a < b < t.panes.len() implies t.panes[a].id != t.panes[b].id by {
        if b < t.panes.len() - 1 {
            assert(t.panes[a] == old_t.panes[a]);
            assert(t.panes[b] == old_t.panes[b]);
        } else {
            assert(t.panes[a] == old_t.panes[a]);
            assert(old_t.panes[a].id@ < np);
        }
    }
    assert forall|m: int| 0 <= m < t.panes.len() implies (#[trigger] t.panes[m]).screen.wf() by {
        if m < t.panes.len() - 1 {
            assert(t.panes[m] == old_t.panes[m]);
        }
    }
    assert(tab_ok(t));
    assert forall|q: int| 0 <= q < ts.len() implies tab_ok(#[trigger] ts[q]) && ts[q].id@ < nt by {
        assert(tabs[q].id@ < nt);
    }
    assert forall|q: int, j: int| 0 <= q < ts.len() && 0 <= j < ts[q].panes.len() implies (#[trigger] ts[q].panes[j]).id@
        < np + 1 by {
        if q == i {
            if j < t.panes.len() - 1 {
                assert(t.panes[j] == old_t.panes[j]);
                assert(old_t.panes[j].id@ < np);
            }
        } else {
            assert(tabs[q].panes[j].id@ < np);
        }
    }
}

/// Taking a pane out of the layout of a tab, and perhaps its entry, keeps
/// the tabs well formed.
proof fn lemma_close_tab(tabs: Seq<TabModel>, nt: u64, np: u64, i: int, t: TabModel)
    requires
        tabs_ok(tabs, nt, np),
        0 <= i < tabs.len(),
        layout_closed(tabs[i], t),
        t.panes == tabs[i].panes || exists|j: int| 0 <= j < tabs[i].panes.len() && t.panes == tabs[i].panes.remove(j),
    ensures
        tabs_ok(tabs.update(i, t), nt, np),
{
    reveal(tabs_ok);
    let ts = tabs.update(i, t);
    let old_t = tabs[i];
    assert(tab_ok(old_t));
    if t.panes != old_t.panes {
        let j = choose|j: int| 0 <= j < old_t.panes.len() && t.panes == old_t.panes.remove(j);
        assert forall|a: int, b: int| 0 <= a < b < t.panes.len() implies t.panes[a].id != t.panes[b].id by {
            let a2 = if a < j { a } else { a + 1 };
            let b2 = if b < j { b } else { b + 1 };
            assert(t.panes[a] == old_t.panes[a2]);
            assert(t.panes[b] == old_t.panes[b2]);
        }
        assert forall|m: int| 0 <= m < t.panes.len() implies (#[trigger] t.panes[m]).screen.wf() by {
            let m2 = if m < j { m } else { m + 1 };
            assert(t.panes[m] == old_t.panes[m2]);
        }
    }
    assert(tab_ok(t));
    assert forall|q: int| 0 <= q < ts.len() implies tab_ok(#[trigger] ts[q]) && ts[q].id@ < nt by {
        assert(tabs[q].id@ < nt);
    }
    assert forall|q: int, m: int| 0 <= q < ts.len() && 0 <= m < ts[q].panes.len() implies (#[trigger] ts[q].panes[m]).id@ < np by {
        if q == i && t.panes != old_t.panes {
            let j = choose|j: int| 0 <= j < old_t.panes.len() && t.panes == old_t.panes.remove(j);
            let m2 = if m < j { m } else { m + 1 };
            assert(t.panes[m] == old_t.panes[m2]);
            assert(old_t.panes[m2].id@ < np);
        } else if q != i {
            assert(tabs[q].panes[m].id@ < np);
        }
    }
}

/// The index of the entry of pane `id` among `panes`.
fn entry_index(panes: &Vec<PaneEntry>, id: PaneId) -> (r: Option<usize>)
    requires
        forall|a: int, b: int| 0 <= a < b < panes@.len() ==> panes@[a].id != panes@[b].id,
    ensures
        match r {
            Some(j) => j < panes@.len() && entry_of(entries_model(panes@), id) == Some(j as int),
            None => entry_of(entries_model(panes@), id) is None,
        },
{
    let ghost ms = entries_model(panes@);
    let mut j: usize = 0;
    while j < panes.len()
        invariant
            0 <= j <= panes@.len(),
            ms == entries_model(panes@),
            forall|a: int, b: int| 0 <= a < b < panes@.len() ==> panes@[a].id != panes@[b].id,
            forall|m: int| 0 <= m < j ==> (#[trigger] ms[m]).id != id,
        decreases panes@.len() - j,
    {
        if panes[j].id == id {
            proof {
                assert forall|a: int, b: int| 0 <= a < b < ms.len() implies ms[a].id != ms[b].id by {
                    assert(ms[a].id == panes@[a].id);
                    assert(ms[b].id == panes@[b].id);
                }
                lemma_entry_unique(ms, id, j as int);
            }
            return Some(j);
        }
        j = j + 1;
    }
    proof {
        if exists|m: int| 0 <= m < ms.len() && ms[m].id == id {
            let m = choose|m: int| 0 <= m < ms.len() && ms[m].id == id;
            assert(ms[m].id != id);
        }
    }
    None
}

impl TabManager {
    /// Splits the focused pane of the active tab in `direction`; the new
    /// pane, whose shell works in `cwd`, comes after it and is focused. The
    /// focused pane needs an entry.
    pub fn split_active_pane(&mut self, direction: SplitDirection, cwd: String) -> (r: Result<PaneId, TabsError>)
        requires
            old(self).wf(),
            old(self).allocator().next_pane_raw() < u64::MAX,
            old(self).active_model().root.panes().len() < 65535,
        ensures
            split_outcome(*old(self), *final(self), direction, cwd@, r),
    {
        let focused = self.active_pane_id();
        if self.active_entry().is_none() {
            return Err(TabsError::PaneNotFound(focused));
        }
        let mut tab = self.take_active_tab();
        let new_id = self.ids.next_pane_id();
        let entry = new_entry(new_id, cwd);
        tab.runtime.layout.split_focused(direction, new_id);
        tab.panes.push(entry);
        self.put_active_tab(tab);
        proof {
            TabManager::lemma_replace_active(old(self), self, tab);
            let t = tab_model(tab);
            let o = old(self).active_model();
            assert(t.panes.drop_last() =~= o.panes);
            assert(t.panes.last() == pane_model(entry));
            assert(pane_split(o, t, direction, new_id, cwd@));
            lemma_split_tab(old(self).tabs(), self.allocator().next_tab_raw(), old(self).allocator().next_pane_raw(), old(self).active(), t, direction, new_id, cwd@);
        }
        Ok(new_id)
    }

    /// Closes the focused pane of the active tab and drops its entry. The
    /// last pane of a tab cannot be closed.
    pub fn close_active_pane(&mut self) -> (r: Result<PaneId, TabsError>)
        requires
            old(self).wf(),
        ensures
            close_pane_outcome(*old(self), *final(self), r),
    {
        let mut tab = self.take_active_tab();
        let ghost t0 = tab_model(tab);
        let closed = match tab.runtime.layout.close_focused() {
            Ok(p) => p,
            Err(e) => {
                self.put_active_tab(tab);
                proof {
                    TabManager::lemma_replace_active(old(self), self, tab);
                    assert(self.tabs() =~= old(self).tabs());
                }
                return Err(TabsError::Layout(e));
            },
        };
        proof {
            assert(tab_ok(t0));
            assert forall|a: int, b: int| 0 <= a < b < tab.panes@.len() implies tab.panes@[a].id != tab.panes@[b].id by {
                assert(t0.panes[a].id == tab.panes@[a].id);
                assert(t0.panes[b].id == tab.panes@[b].id);
            }
        }
        let found = entry_index(&tab.panes, closed);
        let r = match found {
            Some(j) => {
                tab.panes.remove(j);
                Ok(closed)
            },
            None => Err(TabsError::PaneNotFound(closed)),
        };
        self.put_active_tab(tab);
        proof {
            TabManager::lemma_replace_active(old(self), self, tab);
            let t = tab_model(tab);
            let o = old(self).active_model();
            assert(layout_closed(o, t));
            if let Some(j) = found {
                assert(t.panes =~= o.panes.remove(j as int));
            }
            lemma_close_tab(old(self).tabs(), self.allocator().next_tab_raw(), self.allocator().next_pane_raw(), old(self).active(), t);
            assert(self.tabs()[self.active()] == t);
        }
        r
    }
}


/// `b` holds the entries of `a`, in order, with the same identifiers,
/// titles and working directories, each screen well formed.
pub open spec fn entries_like(a: Seq<PaneModel>, b: Seq<PaneModel>) -> bool {
    &&& b.len() == a.len()
    &&& forall|j: int|
        0 <= j < a.len() ==> (#[trigger] b[j]).id == a[j].id && b[j].title == a[j].title && b[j].cwd == a[j].cwd
            && b[j].screen.wf()
}

/// `b` is `a` with only the screens of the panes changed.
pub open spec fn tabs_like(a: Seq<TabModel>, b: Seq<TabModel>) -> bool {
    &&& b.len() == a.len()
    &&& forall|i: int|
        0 <= i < a.len() ==> (#[trigger] b[i]) == TabModel { panes: b[i].panes, ..a[i] } && entries_like(a[i].panes, b[i].panes)
}

/// Some tab has an entry for pane `id`.
pub open spec fn has_pane(tabs: Seq<TabModel>, id: PaneId) -> bool {
    exists|i: int, j: int| 0 <= i < tabs.len() && 0 <= j < tabs[i].panes.len() && (#[trigger] tabs[i].panes[j]).id == id
}

/// The columns and rows of the screen of a pane placed in `r`: two fewer
/// than the rectangle, for its border, and at least one.
pub open spec fn screen_dims(r: Rect) -> (u16, u16) {
    (
        if r.width >= 3 { (r.width - 2) as u16 } else { 1 },
        if r.height >= 3 { (r.height - 2) as u16 } else { 1 },
    )
}

/// Changing only screens, each left well formed, keeps the tabs well formed.
proof fn lemma_tabs_like(a: Seq<TabModel>, b: Seq<TabModel>, nt: u64, np: u64)
    requires
        tabs_ok(a, nt, np),
        tabs_like(a, b),
    ensures
        tabs_ok(b, nt, np),
{
    reveal(tabs_ok);
    assert forall|i: int| 0 <= i < b.len() implies tab_ok(#[trigger] b[i]) && b[i].id@ < nt by {
        assert(tab_ok(a[i]));
        assert(a[i].id@ < nt);
        let t = b[i];
        assert forall|x: int, y: int| 0 <= x < y < t.panes.len() implies t.panes[x].id != t.panes[y].id by {
            assert(t.panes[x].id == a[i].panes[x].id);
            assert(t.panes[y].id == a[i].panes[y].id);
        }
    }
    assert forall|i: int, j: int| 0 <= i < b.len() && 0 <= j < b[i].panes.len() implies (#[trigger] b[i].panes[j]).id@ < np by {
        assert(b[i].panes[j].id == a[i].panes[j].id);
        assert(a[i].panes[j].id@ < np);
    }
}

/// Changing only screens twice changes only screens.
proof fn lemma_tabs_like_trans(a: Seq<TabModel>, b: Seq<TabModel>, c: Seq<TabModel>)
    requires
        tabs_like(a, b),
        tabs_like(b, c),
    ensures
        tabs_like(a, c),
{
    assert forall|i: int| 0 <= i < a.len() implies (#[trigger] c[i]) == TabModel { panes: c[i].panes, ..a[i] } && entries_like(a[i].panes, c[i].panes) by {
        assert(b[i] == TabModel { panes: b[i].panes, ..a[i] });
        assert(c[i] == TabModel { panes: c[i].panes, ..b[i] });
        assert forall|j: int| 0 <= j < a[i].panes.len() implies (#[trigger] c[i].panes[j]).id == a[i].panes[j].id && c[i].panes[j].title == a[i].panes[j].title && c[i].panes[j].cwd == a[i].panes[j].cwd && c[i].panes[j].screen.wf() by {
            assert(b[i].panes[j].id == a[i].panes[j].id);
        }
    }
}

/// Tabs with only screens changed have entries for the same panes.
proof fn lemma_tabs_like_has_pane(a: Seq<TabModel>, b: Seq<TabModel>, id: PaneId)
    requires
        tabs_like(a, b),
    ensures
        has_pane(a, id) == has_pane(b, id),
{
    if has_pane(a, id) {
        let (i, j) = choose|i: int, j: int| 0 <= i < a.len() && 0 <= j < a[i].panes.len() && (#[trigger] a[i].panes[j]).id == id;
        assert(b[i].panes[j].id == id);
    }
    if has_pane(b, id) {
        let (i, j) = choose|i: int, j: int| 0 <= i < b.len() && 0 <= j < b[i].panes.len() && (#[trigger] b[i].panes[j]).id == id;
        assert(b[i] == TabModel { panes: b[i].panes, ..a[i] });
        assert(a[i].panes[j].id == id);
    }
}

/// A pane has a location exactly when some tab has an entry for it.
proof fn lemma_location_has_pane(tabs: Seq<TabModel>, id: PaneId)
    ensures
        pane_location(tabs, id) is Some <==> has_pane(tabs, id),
{
    if has_pane(tabs, id) {
        let (i, j) = choose|i: int, j: int| 0 <= i < tabs.len() && 0 <= j < tabs[i].panes.len() && (#[trigger] tabs[i].panes[j]).id == id;
        assert(entry_of(tabs[i].panes, id) is Some);
    }
    if pane_location(tabs, id) is Some {
        let i = choose|i: int| 0 <= i < tabs.len() && entry_of(tabs[i].panes, id) is Some;
        let j = choose|j: int| 0 <= j < tabs[i].panes.len() && tabs[i].panes[j].id == id;
        assert(tabs[i].panes[j].id == id);
    }
}

/// Feeding output to one screen changes only that screen.
proof fn lemma_fed_like(a: Seq<TabModel>, b: Seq<TabModel>, nt: u64, np: u64, i: int, j: int, bytes: Seq<u8>)
    requires
        tabs_ok(a, nt, np),
        0 <= i < a.len(),
        0 <= j < a[i].panes.len(),
        pane_fed(a, b, i, j, bytes),
    ensures
        tabs_like(a, b),
{
    let s = choose|s: TerminalScreen| #[trigger] fed(a[i].panes[j].screen, s, bytes) && b == with_entry(a, i, j, with_screen(a[i].panes[j], s));
    reveal(tabs_ok);
    assert forall|k: int| 0 <= k < a.len() implies (#[trigger] b[k]) == TabModel { panes: b[k].panes, ..a[k] } && entries_like(a[k].panes, b[k].panes) by {
        assert(tab_ok(a[k]));
        assert forall|m: int| 0 <= m < a[k].panes.len() implies (#[trigger] b[k].panes[m]).id == a[k].panes[m].id && b[k].panes[m].title == a[k].panes[m].title && b[k].panes[m].cwd == a[k].panes[m].cwd && b[k].panes[m].screen.wf() by {
            assert(a[k].panes[m].screen.wf());
        }
    }
}


/// Output `k` is the first with bytes for a pane that has no entry.
pub open spec fn first_unknown_output(tabs: Seq<TabModel>, outputs: Seq<(PaneId, Vec<u8>)>, k: int) -> bool {
    &&& 0 <= k < outputs.len()
    &&& outputs[k].1@.len() > 0
    &&& !has_pane(tabs, outputs[k].0)
    &&& forall|m: int| 0 <= m < k && (#[trigger] outputs[m]).1@.len() > 0 ==> has_pane(tabs, outputs[m].0)
}

impl TabManager {
    /// Hands each pane the output its shell wrote, in order; whether any
    /// pane got output. Output for a pane without an entry stops the run.
    #[verifier::rlimit(40)]
    pub fn refresh_all_panes(&mut self, outputs: &Vec<(PaneId, Vec<u8>)>) -> (r: Result<bool, TabsError>)
        requires
            old(self).wf(),
        ensures
            final(self).wf(),
            final(self).active() == old(self).active(),
            final(self).allocator() == old(self).allocator(),
            tabs_like(old(self).tabs(), final(self).tabs()),
            (forall|k: int| 0 <= k < outputs@.len() && (#[trigger] outputs@[k]).1@.len() > 0 ==> has_pane(old(self).tabs(), outputs@[k].0))
                ==> r == Ok::<bool, TabsError>(exists|k: int| 0 <= k < outputs@.len() && (#[trigger] outputs@[k]).1@.len() > 0),
            r is Err ==> exists|k: int| #[trigger] first_unknown_output(old(self).tabs(), outputs@, k)
                && r == Err::<bool, TabsError>(TabsError::PaneNotFound(outputs@[k].0)),
    {
        let mut changed = false;
        let mut k: usize = 0;
        proof {
            assert forall|i: int| 0 <= i < self.tabs().len() implies (#[trigger] self.tabs()[i]) == TabModel { panes: self.tabs()[i].panes, ..self.tabs()[i] } && entries_like(self.tabs()[i].panes, self.tabs()[i].panes) by {
                lemma_entry_screens(self.tabs(), self.allocator().next_tab_raw(), self.allocator().next_pane_raw(), i);
            }
        }
        while k < outputs.len()
            invariant
                0 <= k <= outputs@.len(),
                self.wf(),
                self.active() == old(self).active(),
                self.allocator() == old(self).allocator(),
                tabs_like(old(self).tabs(), self.tabs()),
                changed == exists|m: int| 0 <= m < k && (#[trigger] outputs@[m]).1@.len() > 0,
                forall|m: int| 0 <= m < k && (#[trigger] outputs@[m]).1@.len() > 0 ==> has_pane(old(self).tabs(), outputs@[m].0),
            decreases outputs@.len() - k,
        {
            let ghost before = self.tabs();
            let id = outputs[k].0;
            let bytes = outputs[k].1.as_slice();
            if bytes.len() > 0 {
                let fed_result = self.feed_pane_output(id, bytes);
                proof {
                    lemma_location_has_pane(before, id);
                    lemma_tabs_like_has_pane(old(self).tabs(), before, id);
                }
                if fed_result.is_err() {
                    proof {
                        assert(first_unknown_output(old(self).tabs(), outputs@, k as int));
                    }
                    return Err(TabsError::PaneNotFound(id));
                }
                proof {
                    let (i, j) = pane_location(before, id)->0;
                    lemma_fed_like(before, self.tabs(), self.allocator().next_tab_raw(), self.allocator().next_pane_raw(), i, j, bytes@);
                    lemma_tabs_like_trans(old(self).tabs(), before, self.tabs());
                }
                changed = true;
            }
            k = k + 1;
        }
        Ok(changed)
    }
}


/// Changing only the screens of one tab changes only screens.
proof fn lemma_one_tab_like(tabs: Seq<TabModel>, nt: u64, np: u64, a: int, t: TabModel)
    requires
        tabs_ok(tabs, nt, np),
        0 <= a < tabs.len(),
        t == (TabModel { panes: t.panes, ..tabs[a] }),
        entries_like(tabs[a].panes, t.panes),
    ensures
        tabs_like(tabs, tabs.update(a, t)),
        tabs_ok(tabs.update(a, t), nt, np),
{
    let b = tabs.update(a, t);
    assert forall|i: int| 0 <= i < tabs.len() implies (#[trigger] b[i]) == TabModel { panes: b[i].panes, ..tabs[i] } && entries_like(tabs[i].panes, b[i].panes) by {
        if i != a {
            lemma_entry_screens(tabs, nt, np, i);
        }
    }
    lemma_tabs_like(tabs, b, nt, np);
}

/// Placement `k` is the first whose pane has no entry.
pub open spec fn first_unplaced(ps: Seq<PanePlacement>, panes: Seq<PaneModel>, k: int) -> bool {
    &&& 0 <= k < ps.len()
    &&& !has_entry(panes, ps[k].pane_id)
    &&& forall|m: int| 0 <= m < k ==> has_entry(panes, (#[trigger] ps[m]).pane_id)
}

/// The columns and rows of the screen of a pane placed in `r`.
fn screen_dims_of(r: Rect) -> (d: (u16, u16))
    ensures
        d == screen_dims(r),
{
    let cols = if r.width >= 3 { r.width - 2 } else { 1 };
    let rows = if r.height >= 3 { r.height - 2 } else { 1 };
    (cols, rows)
}

impl TabManager {
    /// Fits the screens of the panes of the active tab to where they stand
    /// when the tab fills `area`; each pane with the columns and rows its
    /// screen now has, for its shell to be told.
    #[verifier::rlimit(40)]
    pub fn resize_active_tab(&mut self, area: Rect) -> (r: Result<Vec<(PaneId, u16, u16)>, TabsError>)
        requires
            old(self).wf(),
        ensures
            final(self).wf(),
            final(self).active() == old(self).active(),
            final(self).allocator() == old(self).allocator(),
            tabs_like(old(self).tabs(), final(self).tabs()),
            forall|q: int| 0 <= q < old(self).tabs().len() && q != old(self).active() ==> #[trigger] final(self).tabs()[q] == old(self).tabs()[q],
            ({
                let t = old(self).active_model();
                let ps = node_placements(t.root, area, t.focused);
                &&& (forall|k: int| 0 <= k < ps.len() ==> has_entry(t.panes, (#[trigger] ps[k]).pane_id)) ==> (r matches Ok(v)
                    && v@.len() == ps.len() && forall|k: int|
                    0 <= k < ps.len() ==> #[trigger] v@[k] == (ps[k].pane_id, screen_dims(ps[k].rect).0, screen_dims(ps[k].rect).1))
                &&& r is Err ==> exists|k: int| #[trigger] first_unplaced(ps, t.panes, k) && r == Err::<Vec<(PaneId, u16, u16)>, TabsError>(TabsError::PaneNotFound(ps[k].pane_id))
            }),
    {
        let ghost t0 = old(self).active_model();
        let mut tab = self.take_active_tab();
        let ps = tab.runtime.layout.placements(area);
        let ghost ps0 = ps@;
        let mut out: Vec<(PaneId, u16, u16)> = Vec::new();
        let mut k: usize = 0;
        proof {
            lemma_entry_screens(old(self).tabs(), self.ids.next_tab_raw(), self.ids.next_pane_raw(), old(self).active());
        }
        while k < ps.len()
            invariant
                0 <= k <= ps@.len(),
                ps@ == ps0,
                ps0 == node_placements(t0.root, area, t0.focused),
                t0 == old(self).active_model(),
                tab_ok(t0),
                tab_model(tab) == (TabModel { panes: tab_model(tab).panes, ..t0 }),
                entries_like(t0.panes, tab_model(tab).panes),
                self.tabs@ == old(self).tabs@.remove(old(self).active()),
                self.active_tab == old(self).active_tab,
                self.ids == old(self).ids,
                old(self).wf(),
                out@.len() == k,
                forall|m: int| 0 <= m < k ==> has_entry(t0.panes, (#[trigger] ps0[m]).pane_id),
                forall|m: int| 0 <= m < k ==> #[trigger] out@[m] == (ps0[m].pane_id, screen_dims(ps0[m].rect).0, screen_dims(ps0[m].rect).1),
            decreases ps@.len() - k,
        {
            let id = ps[k].pane_id;
            proof {
                let tm = tab_model(tab);
                assert forall|a: int, b: int| 0 <= a < b < tab.panes@.len() implies tab.panes@[a].id != tab.panes@[b].id by {
                    assert(tm.panes[a].id == tab.panes@[a].id);
                    assert(tm.panes[b].id == tab.panes@[b].id);
                    assert(tm.panes[a].id == t0.panes[a].id);
                    assert(tm.panes[b].id == t0.panes[b].id);
                }
            }
            match entry_index(&tab.panes, id) {
                None => {
                    self.put_active_tab(tab);
                    proof {
                        TabManager::lemma_replace_active(old(self), self, tab);
                        lemma_one_tab_like(old(self).tabs(), self.ids.next_tab_raw(), self.ids.next_pane_raw(), old(self).active(), tab_model(tab));
                        let tm = tab_model(tab);
                        assert(!has_entry(t0.panes, id)) by {
                            if has_entry(t0.panes, id) {
                                let w = choose|w: int| 0 <= w < t0.panes.len() && (#[trigger] t0.panes[w]).id == id;
                                assert(tm.panes[w].id == id);
                            }
                        }
                        assert(first_unplaced(ps0, t0.panes, k as int));
                    }
                    return Err(TabsError::PaneNotFound(id));
                },
                Some(j) => {
                    let (cols, rows) = screen_dims_of(ps[k].rect);
                    let ghost before = tab_model(tab);
                    let ghost before_exec = tab.panes@;
                    proof {
                        assert(before.panes[j as int].screen.wf());
                    }
                    let mut e = tab.panes.remove(j);
                    let scrollback = e.screen.scrollback();
                    e.screen.resize(rows, cols);
                    e.screen.set_scrollback(scrollback);
                    tab.panes.insert(j, e);
                    out.push((id, cols, rows));
                    proof {
                        let tm = tab_model(tab);
                        assert(tab.panes@ =~= before_exec.update(j as int, e));
                        assert forall|m: int| 0 <= m < t0.panes.len() implies (#[trigger] tm.panes[m]).id == t0.panes[m].id && tm.panes[m].title == t0.panes[m].title && tm.panes[m].cwd == t0.panes[m].cwd && tm.panes[m].screen.wf() by {
                            if m != j {
                                assert(tm.panes[m] == before.panes[m]);
                            } else {
                                assert(tm.panes[m] == pane_model(e));
                            }
                        }
                        assert(before.panes[j as int].id == id);
                        assert(has_entry(t0.panes, id));
                    }
                },
            }
            k = k + 1;
        }
        self.put_active_tab(tab);
        proof {
            TabManager::lemma_replace_active(old(self), self, tab);
            lemma_one_tab_like(old(self).tabs(), self.ids.next_tab_raw(), self.ids.next_pane_raw(), old(self).active(), tab_model(tab));
        }
        Ok(out)
    }
}


/// `s` is tab `t` saved: its identifier, title, layout and focused pane,
/// and each pane of its layout, in order, with the working directory and
/// title of its entry.
pub open spec fn tab_saved(s: TabSnapshot, t: TabModel) -> bool {
    &&& s.id == t.id
    &&& s.title@ == t.title
    &&& s.layout.root@ == t.root
    &&& s.layout.focused_pane == t.focused
    &&& s.active_pane == t.focused
    &&& s.panes@.len() == t.root.panes().len()
    &&& forall|k: int|
        0 <= k < s.panes@.len() ==> {
            let e = t.panes[entry_of(t.panes, t.root.panes()[k])->0];
            &&& (#[trigger] s.panes@[k]).id == t.root.panes()[k]
            &&& s.panes@[k].cwd@ == e.cwd
            &&& s.panes@[k].title@ == e.title
        }
}

/// Every pane of the layout of every tab has an entry.
pub open spec fn all_entries(tabs: Seq<TabModel>) -> bool {
    forall|i: int, k: int|
        0 <= i < tabs.len() && 0 <= k < tabs[i].root.panes().len() ==> entry_of(tabs[i].panes, #[trigger] tabs[i].root.panes()[k]) is Some
}

/// Pane `k` of the layout of tab `i` is the first, in order, without an
/// entry.
pub open spec fn first_without_entry(tabs: Seq<TabModel>, i: int, k: int) -> bool {
    &&& 0 <= i < tabs.len()
    &&& 0 <= k < tabs[i].root.panes().len()
    &&& entry_of(tabs[i].panes, tabs[i].root.panes()[k]) is None
    &&& forall|a: int, b: int|
        0 <= a < i && 0 <= b < tabs[a].root.panes().len() ==> entry_of(tabs[a].panes, #[trigger] tabs[a].root.panes()[b]) is Some
    &&& forall|b: int| 0 <= b < k ==> entry_of(tabs[i].panes, #[trigger] tabs[i].root.panes()[b]) is Some
}

/// The entries of a well-formed tab have distinct identifiers.
proof fn lemma_entries_distinct(t: TabEntry)
    requires
        tab_ok(tab_model(t)),
    ensures
        forall|a: int, b: int| 0 <= a < b < t.panes@.len() ==> t.panes@[a].id != t.panes@[b].id,
{
    let tm = tab_model(t);
    assert forall|a: int, b: int| 0 <= a < b < t.panes@.len() implies t.panes@[a].id != t.panes@[b].id by {
        assert(tm.panes[a].id == t.panes@[a].id);
        assert(tm.panes[b].id == t.panes@[b].id);
    }
}

impl TabManager {
    /// The session as it is saved: each tab with its layout and the panes of
    /// the layout, and the active tab. Each pane of a layout needs an entry.
    pub fn snapshot(&self) -> (r: Result<SessionSnapshot, TabsError>)
        requires
            self.wf(),
        ensures
            r is Ok == all_entries(self.tabs()),
            r matches Ok(s) ==> s.tabs@.len() == self.tabs().len() && s.active_tab == self.active_model().id
                && forall|i: int| 0 <= i < s.tabs@.len() ==> tab_saved(#[trigger] s.tabs@[i], self.tabs()[i]),
            r is Err ==> exists|i: int, k: int| #[trigger] first_without_entry(self.tabs(), i, k) && r == Err::<SessionSnapshot, TabsError>(
                TabsError::PaneNotFound(self.tabs()[i].root.panes()[k]),
            ),
    {
        proof {
            self.lemma_tabs();
            reveal(tabs_ok);
        }
        let mut out: Vec<TabSnapshot> = Vec::new();
        let mut i: usize = 0;
        while i < self.tabs.len()
            invariant
                0 <= i <= self.tabs@.len(),
                self.wf(),
                self.tabs().len() == self.tabs@.len(),
                forall|q: int| 0 <= q < self.tabs@.len() ==> #[trigger] self.tabs()[q] == tab_model(self.tabs@[q]),
                out@.len() == i,
                forall|q: int| 0 <= q < i ==> tab_saved(#[trigger] out@[q], self.tabs()[q]),
                forall|a: int, b: int|
                    0 <= a < i && 0 <= b < self.tabs()[a].root.panes().len() ==> entry_of(self.tabs()[a].panes, #[trigger] self.tabs()[a].root.panes()[b]) is Some,
            decreases self.tabs@.len() - i,
        {
            let tab = &self.tabs[i];
            let ghost t = self.tabs()[i as int];
            proof {
                reveal(tabs_ok);
                assert(tab_ok(t));
                lemma_entries_distinct(*tab);
                tab.runtime.layout.lemma_fields();
            }
            let active_pane = tab.runtime.layout.focused_pane();
            let ids = tab.runtime.layout.pane_ids();
            let mut panes: Vec<PaneSnapshot> = Vec::new();
            let mut k: usize = 0;
            while k < ids.len()
                invariant
                    0 <= k <= ids@.len(),
                    ids@ == t.root.panes(),
                    t == tab_model(*tab),
                    i < self.tabs@.len(),
                    t == self.tabs()[i as int],
                    forall|a: int, b: int|
                        0 <= a < i && 0 <= b < self.tabs()[a].root.panes().len() ==> entry_of(self.tabs()[a].panes, #[trigger] self.tabs()[a].root.panes()[b]) is Some,
                    forall|a: int, b: int| 0 <= a < b < tab.panes@.len() ==> tab.panes@[a].id != tab.panes@[b].id,
                    panes@.len() == k,
                    forall|b: int| 0 <= b < k ==> entry_of(t.panes, #[trigger] t.root.panes()[b]) is Some,
                    forall|b: int|
                        0 <= b < k ==> {
                            let e = t.panes[entry_of(t.panes, t.root.panes()[b])->0];
                            &&& (#[trigger] panes@[b]).id == t.root.panes()[b]
                            &&& panes@[b].cwd@ == e.cwd
                            &&& panes@[b].title@ == e.title
                        },
                decreases ids@.len() - k,
            {
                let pid = ids[k];
                match entry_index(&tab.panes, pid) {
                    None => {
                        proof {
                            assert(first_without_entry(self.tabs(), i as int, k as int));
                        }
                        return Err(TabsError::PaneNotFound(pid));
                    },
                    Some(j) => {
                        let cwd = owned(tab.panes[j].last_known_cwd.as_str());
                        let title = owned(tab.panes[j].title.as_str());
                        panes.push(PaneSnapshot { id: pid, cwd, title });
                    },
                }
                k = k + 1;
            }
            let layout = tab.runtime.layout.to_snapshot();
            let title = owned(tab.runtime.title.as_str());
            out.push(TabSnapshot { id: tab.runtime.id, title, layout, panes, active_pane });
            proof {
                assert(tab_saved(out@[i as int], t));
            }
            i = i + 1;
        }
        let active_tab = self.active_tab_id();
        Ok(SessionSnapshot { tabs: out, active_tab })
    }
}


/// The title a saved pane gets back: its own, or the default one when it
/// has none.
pub open spec fn restored_title(p: PaneSnapshot) -> Seq<char> {
    if p.title@.len() == 0 {
        default_pane_title(p.id)
    } else {
        p.title@
    }
}

/// Entry `e` is saved pane `p` brought back, with a new screen.
pub open spec fn pane_restored(e: PaneModel, p: PaneSnapshot) -> bool {
    &&& e.id == p.id
    &&& e.cwd == p.cwd@
    &&& e.title == restored_title(p)
    &&& fresh_screen(e.screen)
}

/// Tab `t` is saved tab `s` brought back: the same identifier and title,
/// the layout in normal form, the active pane focused, and an entry for
/// each saved pane, in order.
pub open spec fn tab_restored(t: TabModel, s: TabSnapshot) -> bool {
    &&& t.id == s.id
    &&& t.title == s.title@
    &&& t.root == normalize_model(s.layout.root@)
    &&& t.focused == s.active_pane
    &&& t.panes.len() == s.panes@.len()
    &&& forall|k: int| 0 <= k < t.panes.len() ==> pane_restored(#[trigger] t.panes[k], s.panes@[k])
}

/// The largest identifier of the saved panes, or 0.
pub open spec fn max_pane_id_in(ps: Seq<PaneSnapshot>) -> nat
    decreases ps.len(),
{
    if ps.len() == 0 {
        0
    } else {
        let m = max_pane_id_in(ps.drop_last());
        if ps.last().id@ > m {
            ps.last().id@ as nat
        } else {
            m
        }
    }
}

/// The largest identifier of the panes of the saved tabs, or 0.
pub open spec fn max_pane_id_of(tabs: Seq<TabSnapshot>) -> nat
    decreases tabs.len(),
{
    if tabs.len() == 0 {
        0
    } else {
        let m = max_pane_id_of(tabs.drop_last());
        let n = max_pane_id_in(tabs.last().panes@);
        if n > m {
            n
        } else {
            m
        }
    }
}

/// The largest identifier of the saved tabs, or 0.
pub open spec fn max_tab_id_of(tabs: Seq<TabSnapshot>) -> nat
    decreases tabs.len(),
{
    if tabs.len() == 0 {
        0
    } else {
        let m = max_tab_id_of(tabs.drop_last());
        if tabs.last().id@ > m {
            tabs.last().id@ as nat
        } else {
            m
        }
    }
}

/// What restoring needs of a saved session: no layout with an empty split,
/// fewer than 65536 panes in each layout, and identifiers below the largest
/// value, so that the next ones can be handed out.
pub open spec fn restorable(tabs: Seq<TabSnapshot>) -> bool {
    &&& forall|i: int|
        0 <= i < tabs.len() ==> no_empty_split((#[trigger] tabs[i]).layout.root@) && tabs[i].layout.root@.panes().len() < 65536
            && tabs[i].id@ < u64::MAX
    &&& forall|i: int, k: int| 0 <= i < tabs.len() && 0 <= k < tabs[i].panes@.len() ==> (#[trigger] tabs[i].panes@[k]).id@ < u64::MAX
}

/// Whether a saved session meets what restoring needs.
#[verifier::loop_isolation(false)]
pub fn is_restorable(snapshot: &SessionSnapshot) -> (r: bool)
    ensures
        r == restorable(snapshot.tabs@),
{
    let mut i: usize = 0;
    while i < snapshot.tabs.len()
        invariant
            0 <= i <= snapshot.tabs@.len(),
            forall|q: int|
                0 <= q < i ==> no_empty_split((#[trigger] snapshot.tabs@[q]).layout.root@) && snapshot.tabs@[q].layout.root@.panes().len()
                    < 65536 && snapshot.tabs@[q].id@ < u64::MAX,
            forall|q: int, k: int| 0 <= q < i && 0 <= k < snapshot.tabs@[q].panes@.len() ==> (#[trigger] snapshot.tabs@[q].panes@[k]).id@ < u64::MAX,
        decreases snapshot.tabs@.len() - i,
    {
        let t = &snapshot.tabs[i];
        if !t.layout.root.has_no_empty_split() {
            proof {
                assert(!no_empty_split(snapshot.tabs@[i as int].layout.root@));
            }
            return false;
        }
        let ids = t.layout.root.pane_ids();
        if ids.len() >= 65536 || t.id.get() == u64::MAX {
            proof {
                assert(snapshot.tabs@[i as int].layout.root@.panes().len() >= 65536 || snapshot.tabs@[i as int].id@ == u64::MAX);
            }
            return false;
        }
        let mut k: usize = 0;
        while k < t.panes.len()
            invariant
                0 <= k <= t.panes@.len(),
                forall|m: int| 0 <= m < k ==> (#[trigger] t.panes@[m]).id@ < u64::MAX,
            decreases t.panes@.len() - k,
        {
            if t.panes[k].id.get() == u64::MAX {
                proof {
                    assert(snapshot.tabs@[i as int].panes@[k as int].id@ == u64::MAX);
                }
                return false;
            }
            k = k + 1;
        }
        i = i + 1;
    }
    true
}

/// The entry of saved pane `p`, with a new screen.
fn restored_entry(p: &PaneSnapshot) -> (e: PaneEntry)
    ensures
        pane_restored(pane_model(e), *p),
{
    let title = if p.title.unicode_len() == 0 {
        default_pane_title_for(p.id)
    } else {
        owned(p.title.as_str())
    };
    PaneEntry {
        id: p.id,
        screen: TerminalScreen::new(DEFAULT_TERMINAL_ROWS, DEFAULT_TERMINAL_COLS, DEFAULT_SCROLLBACK_LEN),
        last_known_cwd: owned(p.cwd.as_str()),
        title,
    }
}


/// Some saved tab before position `i` has identifier `id`.
pub open spec fn tab_id_before(tabs: Seq<TabSnapshot>, id: TabId, i: int) -> bool {
    exists|q: int| 0 <= q < i && (#[trigger] tabs[q]).id == id
}

impl TabManager {
    /// Brings a saved session back: each tab with its layout in normal form,
    /// its active pane focused and a new screen for each saved pane, titled
    /// as saved or by default; the saved active tab active; identifiers
    /// handed out after the largest saved ones. A session that fails the
    /// check is refused with what is wrong with it.
    #[verifier::rlimit(60)]
    pub fn from_snapshot(snapshot: SessionSnapshot) -> (r: Result<TabManager, TabsError>)
        requires
            restorable(snapshot.tabs@),
        ensures
            match validation(snapshot.tabs@, snapshot.active_tab) {
                Err(e) => r matches Err(TabsError::Process(msg)) && msg@ == "invalid snapshot: "@ + validation_error_text(e),
                Ok(_) => r matches Ok(m) && m.wf() && m.tabs().len() == snapshot.tabs@.len()
                    && (forall|i: int| 0 <= i < snapshot.tabs@.len() ==> tab_restored(#[trigger] m.tabs()[i], snapshot.tabs@[i]))
                    && m.active_model().id == snapshot.active_tab
                    && (forall|q: int| m.active() < q < snapshot.tabs@.len() ==> (#[trigger] snapshot.tabs@[q]).id != snapshot.active_tab)
                    && m.allocator().next_tab_raw() == max_tab_id_of(snapshot.tabs@) + 1
                    && m.allocator().next_pane_raw() == max_pane_id_of(snapshot.tabs@) + 1,
            },
    {
        match snapshot.validate() {
            Ok(()) => {},
            Err(e) => {
                let text = e.debug_text();
                return Err(TabsError::Process(concat("invalid snapshot: ", text.as_str())));
            },
        }
        let ghost orig = snapshot.tabs@;
        let active_tab = snapshot.active_tab;
        let mut rest = snapshot.tabs;
        let n = rest.len();
        let mut tabs: Vec<TabEntry> = Vec::new();
        let mut active_index: usize = 0;
        let mut max_tab: u64 = 0;
        let mut max_pane: u64 = 0;
        let mut i: usize = 0;
        proof {
            assert(orig.skip(0) =~= orig);
            assert(orig.take(0) =~= Seq::<TabSnapshot>::empty());
        }
        while i < n
            invariant
                0 <= i <= n,
                n == orig.len(),
                rest@ == orig.skip(i as int),
                tabs@.len() == i,
                validation(orig, active_tab) is Ok,
                restorable(orig),
                forall|q: int| 0 <= q < i ==> tab_restored(tab_model(#[trigger] tabs@[q]), orig[q]) && tab_ok(tab_model(tabs@[q])),
                max_tab == max_tab_id_of(orig.take(i as int)),
                max_pane == max_pane_id_of(orig.take(i as int)),
                max_tab < u64::MAX,
                max_pane < u64::MAX,
                forall|q: int| 0 <= q < i ==> (#[trigger] tabs@[q]).runtime.id@ <= max_tab,
                forall|q: int, j: int|
                    0 <= q < i && 0 <= j < tab_model(tabs@[q]).panes.len() ==> (#[trigger] tab_model(tabs@[q]).panes[j]).id@ <= max_pane,
                active_index <= i,
                tab_id_before(orig, active_tab, i as int) ==> active_index < i && orig[active_index as int].id == active_tab
                    && forall|q: int| active_index < q < i ==> (#[trigger] orig[q]).id != active_tab,
            decreases n - i,
        {
            let t = rest.remove(0);
            proof {
                assert(t == orig[i as int]);
                assert(rest@ =~= orig.skip(i + 1));
                lemma_validated_tab(orig, active_tab, i as int);
                assert(no_empty_split(orig[i as int].layout.root@));
            }
            let TabSnapshot { id: tab_id, title, layout: layout_snapshot, panes: saved, active_pane } = t;
            let mut entries: Vec<PaneEntry> = Vec::new();
            let mut tab_max_pane: u64 = max_pane;
            let mut k: usize = 0;
            proof {
                assert(saved@.take(0) =~= Seq::<PaneSnapshot>::empty());
            }
            while k < saved.len()
                invariant
                    0 <= k <= saved@.len(),
                    saved@ == orig[i as int].panes@,
                    i < orig.len(),
                    restorable(orig),
                    entries@.len() == k,
                    forall|m: int| 0 <= m < k ==> pane_restored(pane_model(#[trigger] entries@[m]), saved@[m]),
                    tab_max_pane == (if max_pane_id_in(saved@.take(k as int)) > max_pane {
                        max_pane_id_in(saved@.take(k as int))
                    } else {
                        max_pane as nat
                    }),
                    tab_max_pane < u64::MAX,
                    max_pane <= tab_max_pane,
                    forall|m: int| 0 <= m < k ==> (#[trigger] entries@[m]).id@ <= tab_max_pane,
                decreases saved@.len() - k,
            {
                let e = restored_entry(&saved[k]);
                let id = saved[k].id.get();
                proof {
                    assert(saved@[k as int].id@ < u64::MAX);
                    assert(saved@.take(k + 1).drop_last() =~= saved@.take(k as int));
                    assert(saved@.take(k + 1).last() == saved@[k as int]);
                }
                if id > tab_max_pane {
                    tab_max_pane = id;
                }
                entries.push(e);
                k = k + 1;
            }
            proof {
                assert(saved@.take(saved@.len() as int) =~= saved@);
                lemma_normalize_normal(layout_snapshot.root@);
            }
            let mut layout = match LayoutTree::from_snapshot(layout_snapshot) {
                Ok(l) => l,
                Err(e) => return Err(TabsError::Layout(e)),
            };
            match layout.focus_pane(active_pane) {
                Ok(()) => {},
                Err(e) => return Err(TabsError::Layout(e)),
            }
            if tab_id == active_tab {
                active_index = i;
            }
            if tab_id.get() > max_tab {
                max_tab = tab_id.get();
            }
            max_pane = tab_max_pane;
            let entry = TabEntry { runtime: RuntimeTab { id: tab_id, title, layout }, panes: entries };
            tabs.push(entry);
            proof {
                let tm = tab_model(entry);
                let o = orig[i as int];
                assert(orig.take(i + 1).drop_last() =~= orig.take(i as int));
                assert(orig.take(i + 1).last() == o);
                assert(tm.panes.len() == o.panes@.len());
                assert forall|m: int| 0 <= m < tm.panes.len() implies pane_restored(#[trigger] tm.panes[m], o.panes@[m]) by {
                    assert(tm.panes[m] == pane_model(entries@[m]));
                }
                assert forall|a: int, b: int| 0 <= a < b < tm.panes.len() implies tm.panes[a].id != tm.panes[b].id by {
                    assert(tm.panes[a] == pane_model(entries@[a]));
                    assert(tm.panes[b] == pane_model(entries@[b]));
                    assert(crate::session::pane_ids_of(o.panes@)[a] == o.panes@[a].id);
                    assert(crate::session::pane_ids_of(o.panes@)[b] == o.panes@[b].id);
                }
                assert forall|m: int| 0 <= m < tm.panes.len() implies (#[trigger] tm.panes[m]).screen.wf() by {
                    assert(tm.panes[m] == pane_model(entries@[m]));
                }
                assert(tab_ok(tm));
                assert(tab_restored(tm, o));
                assert forall|q: int| 0 <= q < i + 1 implies tab_restored(tab_model(#[trigger] tabs@[q]), orig[q]) && tab_ok(tab_model(tabs@[q])) by {
                    if q == i {
                        assert(tabs@[q] == entry);
                    }
                }
                assert forall|q: int, j: int| 0 <= q < i + 1 && 0 <= j < tab_model(tabs@[q]).panes.len() implies (#[trigger] tab_model(tabs@[q]).panes[j]).id@ <= max_pane by {
                    if q == i {
                        assert(tabs@[q] == entry);
                        assert(tm.panes[j] == pane_model(entries@[j]));
                    }
                }
                if tab_id_before(orig, active_tab, i + 1) && !tab_id_before(orig, active_tab, i as int) {
                    let q = choose|q: int| 0 <= q < i + 1 && (#[trigger] orig[q]).id == active_tab;
                    assert(q == i);
                }
            }
            i = i + 1;
        }
        proof {
            assert(orig.take(n as int) =~= orig);
            assert(tab_id_before(orig, active_tab, n as int)) by {
                let q = choose|q: int| 0 <= q < orig.len() && #[trigger] orig[q].id == active_tab;
                assert(orig[q].id == active_tab);
            }
        }
        let mut ids = IdAllocator::new();
        ids.advance_to(max_tab + 1, max_pane + 1);
        let m = TabManager { tabs, active_tab: active_index, ids };
        proof {
            m.lemma_tabs();
            reveal(tabs_ok);
            assert forall|q: int| 0 <= q < m.tabs().len() implies tab_ok(#[trigger] m.tabs()[q]) && m.tabs()[q].id@ < m.allocator().next_tab_raw() by {
                assert(m.tabs@[q].runtime.id@ <= max_tab);
            }
            assert forall|q: int, j: int| 0 <= q < m.tabs().len() && 0 <= j < m.tabs()[q].panes.len() implies (#[trigger] m.tabs()[q].panes[j]).id@ < m.allocator().next_pane_raw() by {
                assert(tab_model(m.tabs@[q]).panes[j].id@ <= max_pane);
            }
            assert forall|q: int| 0 <= q < orig.len() implies tab_restored(#[trigger] m.tabs()[q], orig[q]) by {
                assert(tab_restored(tab_model(m.tabs@[q]), orig[q]));
            }
            crate::session::lemma_validated_tab_ids_distinct(orig, active_tab);
            assert forall|a: int, b: int| 0 <= a < m.tabs().len() && 0 <= b < m.tabs().len() && a != b implies (#[trigger] m.tabs()[a]).id
                != (#[trigger] m.tabs()[b]).id by {
                assert(tab_restored(m.tabs()[a], orig[a]));
                assert(tab_restored(m.tabs()[b], orig[b]));
                assert(orig[a].id != orig[b].id);
            }
        }
        Ok(m)
    }
}


impl TabManager {
    /// The working directory last known of the shell of the focused pane of
    /// the active tab.
    pub fn active_pane_last_known_cwd(&self) -> (r: Result<String, TabsError>)
        requires
            self.wf(),
        ensures
            match entry_of(self.active_model().panes, self.active_model().focused) {
                Some(j) => r matches Ok(c) && c@ == self.active_model().panes[j].cwd,
                None => r == Err::<String, TabsError>(TabsError::PaneNotFound(self.active_model().focused)),
            },
    {
        let pane_id = self.active_pane_id();
        match self.active_entry() {
            Some(j) => {
                proof {
                    self.lemma_tabs();
                }
                Ok(owned(self.tabs[self.active_tab].panes[j].last_known_cwd.as_str()))
            },
            None => Err(TabsError::PaneNotFound(pane_id)),
        }
    }

    /// Records `cwd` as the working directory of the shell of pane
    /// `pane_id`.
    pub fn set_last_known_cwd(&mut self, pane_id: PaneId, cwd: String) -> (r: Result<(), TabsError>)
        requires
            old(self).wf(),
        ensures
            final(self).wf(),
            final(self).active() == old(self).active(),
            final(self).allocator() == old(self).allocator(),
            match pane_location(old(self).tabs(), pane_id) {
                Some((i, j)) => r is Ok && final(self).tabs() == with_entry(
                    old(self).tabs(),
                    i,
                    j,
                    PaneModel { cwd: cwd@, ..old(self).tabs()[i].panes[j] },
                ),
                None => r == Err::<(), TabsError>(TabsError::PaneNotFound(pane_id)) && final(self).tabs() == old(self).tabs(),
            },
    {
        match self.find_pane(pane_id) {
            Some((i, j)) => {
                proof {
                    lemma_entry_screen(self.tabs(), self.allocator().next_tab_raw(), self.allocator().next_pane_raw(), i as int, j as int);
                }
                let mut e = self.take_entry(i, j);
                e.last_known_cwd = cwd;
                self.put_entry(i, j, e);
                proof {
                    old(self).lemma_tabs();
                    TabManager::lemma_take_put(old(self), self, i as int, j as int, e);
                    assert(pane_model(e) == PaneModel { cwd: cwd@, ..old(self).tabs()[i as int].panes[j as int] });
                    lemma_with_entry(old(self).tabs(), self.allocator().next_tab_raw(), self.allocator().next_pane_raw(), i as int, j as int, pane_model(e));
                }
                Ok(())
            },
            None => Err(TabsError::PaneNotFound(pane_id)),
        }
    }
}


/// A tab saved and brought back has the same identifier, title, layout and
/// focused pane; its entries are the panes of its layout, in order, each
/// with the working directory of its entry, and with its title unless that
/// was empty.
pub proof fn law_tab_save_restore(t: TabModel, s: TabSnapshot, back: TabModel)
    requires
        tab_ok(t),
        tab_saved(s, t),
        tab_restored(back, s),
    ensures
        back.id == t.id,
        back.title == t.title,
        back.root == t.root,
        back.focused == t.focused,
        back.panes.len() == t.root.panes().len(),
        forall|k: int|
            0 <= k < back.panes.len() ==> {
                let e = t.panes[entry_of(t.panes, t.root.panes()[k])->0];
                &&& (#[trigger] back.panes[k]).id == t.root.panes()[k]
                &&& back.panes[k].cwd == e.cwd
                &&& e.title.len() > 0 ==> back.panes[k].title == e.title
                &&& fresh_screen(back.panes[k].screen)
            },
{
    crate::snapshot::law_normal_form_of_wf(t.root);
    assert forall|k: int| 0 <= k < back.panes.len() implies {
        let e = t.panes[entry_of(t.panes, t.root.panes()[k])->0];
        &&& (#[trigger] back.panes[k]).id == t.root.panes()[k]
        &&& back.panes[k].cwd == e.cwd
        &&& e.title.len() > 0 ==> back.panes[k].title == e.title
        &&& fresh_screen(back.panes[k].screen)
    } by {
        assert(pane_restored(back.panes[k], s.panes@[k]));
    }
}



impl TabManager {
    /// Whether a tab can be opened: identifiers of both kinds are left.
    pub fn can_open_tab(&self) -> (r: bool)
        ensures
            r == (self.allocator().next_tab_raw() < u64::MAX && self.allocator().next_pane_raw() < u64::MAX),
    {
        self.ids.can_allocate_tab() && self.ids.can_allocate_pane()
    }

    /// Whether the focused pane of the active tab can be split: a pane
    /// identifier is left and the layout holds fewer than 65535 panes.
    pub fn can_split_active_pane(&self) -> (r: bool)
        requires
            self.wf(),
        ensures
            r == (self.allocator().next_pane_raw() < u64::MAX && self.active_model().root.panes().len() < 65535),
    {
        proof {
            self.lemma_tabs();
            self.tabs@[self.active()].runtime.layout.lemma_fields();
        }
        let ids = self.tabs[self.active_tab].runtime.layout.pane_ids();
        self.ids.can_allocate_pane() && ids.len() < 65535
    }

    /// The panes with an entry in the active tab, in the order of their
    /// entries.
    pub fn active_tab_pane_ids(&self) -> (r: Vec<PaneId>)
        requires
            self.wf(),
        ensures
            r@.len() == self.active_model().panes.len(),
            forall|j: int| 0 <= j < r@.len() ==> r@[j] == (#[trigger] self.active_model().panes[j]).id,
    {
        proof {
            self.lemma_tabs();
        }
        let tab = &self.tabs[self.active_tab];
        let ghost t = self.active_model();
        let mut out: Vec<PaneId> = Vec::new();
        let mut j: usize = 0;
        while j < tab.panes.len()
            invariant
                0 <= j <= tab.panes@.len(),
                t == tab_model(*tab),
                out@.len() == j,
                forall|k: int| 0 <= k < j ==> out@[k] == (#[trigger] t.panes[k]).id,
            decreases tab.panes@.len() - j,
        {
            out.push(tab.panes[j].id);
            j = j + 1;
        }
        out
    }
}

impl TabManager {
    /// Whether pane `pane_id` shows its normal or its alternate screen.
    pub fn pane_screen_mode(&self, pane_id: PaneId) -> (r: Result<ScreenMode, TabsError>)
        requires
            self.wf(),
        ensures
            match pane_location(self.tabs(), pane_id) {
                Some((i, j)) => r == Ok::<ScreenMode, TabsError>(self.tabs()[i].panes[j].screen.mode()),
                None => r == Err::<ScreenMode, TabsError>(TabsError::PaneNotFound(pane_id)),
            },
    {
        match self.find_screen(pane_id) {
            Some(screen) => Ok(screen.screen_mode()),
            None => Err(TabsError::PaneNotFound(pane_id)),
        }
    }
}
} // verus!
