//! How the operations on the tabs fit together. The panes of a layout and
//! the panes with a shell stay in step: every pane of a tab's layout occurs
//! once and has an entry, and every operation keeps this, so a session can
//! always be saved. Closing what was just opened gives back what there was.

use vstd::prelude::*;

use crate::base::{PaneId, SplitDirection};
use crate::errors::TabsError;
use crate::layout::{is_first_occurrence, NodeModel};
use crate::tabs::{
    all_entries, close_pane_outcome, close_tab_outcome, entry_of, layout_closed, new_tab_outcome, split_outcome,
    tab_ok, tabs_like, with_entry, with_layout, PaneModel, TabManager, TabModel,
};

verus! {

/// Every pane of every layout occurs once in it and has an entry.
pub open spec fn panes_consistent(tabs: Seq<TabModel>) -> bool {
    &&& all_entries(tabs)
    &&& forall|i: int| 0 <= i < tabs.len() ==> (#[trigger] tabs[i]).root.panes().no_duplicates()
}

/// Some entry of `panes` is for pane `id`.
pub open spec fn entry_for(panes: Seq<PaneModel>, id: PaneId) -> bool {
    exists|j: int| 0 <= j < panes.len() && (#[trigger] panes[j]).id == id
}

/// The consistency of one tab.
pub open spec fn tab_consistent(t: TabModel) -> bool {
    &&& forall|k: int| 0 <= k < t.root.panes().len() ==> entry_for(t.panes, #[trigger] t.root.panes()[k])
    &&& t.root.panes().no_duplicates()
}

proof fn lemma_entry_of_some(panes: Seq<PaneModel>, id: PaneId)
    ensures
        (entry_of(panes, id) is Some) == entry_for(panes, id),
{
}

/// The tabs are consistent exactly when each tab is.
proof fn lemma_consistent_by_tab(tabs: Seq<TabModel>)
    ensures
        panes_consistent(tabs) == (forall|i: int| 0 <= i < tabs.len() ==> tab_consistent(#[trigger] tabs[i])),
{
    if panes_consistent(tabs) {
        assert forall|i: int| 0 <= i < tabs.len() implies tab_consistent(#[trigger] tabs[i]) by {
            assert forall|k: int| 0 <= k < tabs[i].root.panes().len() implies entry_for(
                tabs[i].panes,
                #[trigger] tabs[i].root.panes()[k],
            ) by {
                lemma_entry_of_some(tabs[i].panes, tabs[i].root.panes()[k]);
            }
        }
    }
    if forall|i: int| 0 <= i < tabs.len() ==> tab_consistent(#[trigger] tabs[i]) {
        assert forall|i: int, k: int| 0 <= i < tabs.len() && 0 <= k < tabs[i].root.panes().len() implies entry_of(
            tabs[i].panes,
            #[trigger] tabs[i].root.panes()[k],
        ) is Some by {
            assert(tab_consistent(tabs[i]));
            lemma_entry_of_some(tabs[i].panes, tabs[i].root.panes()[k]);
        }
    }
}

/// Replacing one consistent tab keeps the tabs consistent.
proof fn lemma_consistent_update(tabs: Seq<TabModel>, i: int, t: TabModel)
    requires
        panes_consistent(tabs),
        0 <= i < tabs.len(),
        tab_consistent(t),
    ensures
        panes_consistent(tabs.update(i, t)),
{
    lemma_consistent_by_tab(tabs);
    lemma_consistent_by_tab(tabs.update(i, t));
    assert forall|q: int| 0 <= q < tabs.len() implies tab_consistent(#[trigger] tabs.update(i, t)[q]) by {
        if q != i {
            assert(tab_consistent(tabs[q]));
        }
    }
}

/// A layout's panes and an entry list that name the same panes keep a tab
/// consistent.
proof fn lemma_same_names(a: TabModel, b: TabModel)
    requires
        tab_consistent(a),
        b.root.panes() == a.root.panes(),
        b.panes.len() == a.panes.len(),
        forall|j: int| 0 <= j < a.panes.len() ==> (#[trigger] b.panes[j]).id == a.panes[j].id,
    ensures
        tab_consistent(b),
{
    assert forall|k: int| 0 <= k < b.root.panes().len() implies entry_for(b.panes, #[trigger] b.root.panes()[k]) by {
        assert(entry_for(a.panes, a.root.panes()[k]));
        let j = choose|j: int| 0 <= j < a.panes.len() && (#[trigger] a.panes[j]).id == a.root.panes()[k];
        assert(b.panes[j].id == b.root.panes()[k]);
    }
}

/// A new session is consistent: its one tab shows its one pane.
pub proof fn law_new_session_consistent(m: TabManager)
    requires
        m.tabs().len() == 1,
        m.tabs()[0].root == NodeModel::Pane(m.tabs()[0].focused),
        m.tabs()[0].panes.len() == 1,
        m.tabs()[0].panes[0].id == m.tabs()[0].focused,
    ensures
        panes_consistent(m.tabs()),
{
    let t = m.tabs()[0];
    assert(t.root.panes() == seq![t.focused]);
    assert(t.panes[0].id == t.root.panes()[0]);
    assert(tab_consistent(t));
    lemma_consistent_by_tab(m.tabs());
}

/// Opening a tab keeps the session consistent.
pub proof fn law_new_tab_keeps_consistency(a: TabManager, b: TabManager, id: crate::base::TabId, cwd: Seq<char>)
    requires
        a.wf(),
        panes_consistent(a.tabs()),
        new_tab_outcome(a, b, id, cwd),
    ensures
        panes_consistent(b.tabs()),
{
    let n = a.tabs().len();
    let t = b.tabs()[n as int];
    assert(t.root.panes() == seq![t.focused]);
    assert(t.panes[0].id == t.root.panes()[0]);
    assert(tab_consistent(t));
    lemma_consistent_by_tab(a.tabs());
    lemma_consistent_by_tab(b.tabs());
    assert forall|q: int| 0 <= q < b.tabs().len() implies tab_consistent(#[trigger] b.tabs()[q]) by {
        if q < n {
            assert(b.tabs().take(n as int)[q] == b.tabs()[q]);
            assert(tab_consistent(a.tabs()[q]));
        }
    }
}

/// Closing a tab keeps the session consistent.
pub proof fn law_close_tab_keeps_consistency(a: TabManager, b: TabManager, r: Result<crate::base::TabId, TabsError>)
    requires
        a.wf(),
        panes_consistent(a.tabs()),
        close_tab_outcome(a, b, r),
    ensures
        panes_consistent(b.tabs()),
{
    lemma_consistent_by_tab(a.tabs());
    lemma_consistent_by_tab(b.tabs());
    if a.tabs().len() > 1 {
        assert forall|q: int| 0 <= q < b.tabs().len() implies tab_consistent(#[trigger] b.tabs()[q]) by {
            if q < a.active() {
                assert(b.tabs()[q] == a.tabs()[q]);
                assert(tab_consistent(a.tabs()[q]));
            } else {
                assert(b.tabs()[q] == a.tabs()[q + 1]);
                assert(tab_consistent(a.tabs()[q + 1]));
            }
        }
    }
}

/// Splitting the focused pane keeps the session consistent: the new pane
/// takes an identifier no layout holds yet, and gets an entry.
pub proof fn law_split_keeps_consistency(
    a: TabManager,
    b: TabManager,
    direction: SplitDirection,
    cwd: Seq<char>,
    r: Result<PaneId, TabsError>,
)
    requires
        a.wf(),
        panes_consistent(a.tabs()),
        split_outcome(a, b, direction, cwd, r),
    ensures
        panes_consistent(b.tabs()),
{
    lemma_consistent_by_tab(a.tabs());
    lemma_consistent_by_tab(b.tabs());
    let o = a.active_model();
    assert(tab_consistent(o));
    if entry_of(o.panes, o.focused) is Some {
        let id = r->Ok_0;
        let t = b.active_model();
        let k = choose|k: int| is_first_occurrence(o.root.panes(), k, o.focused) && t.root.panes() == o.root.panes().insert(k + 1, id);
        assert(is_first_occurrence(o.root.panes(), k, o.focused) && t.root.panes() == o.root.panes().insert(k + 1, id));
        // No pane of the layout has the new identifier: each has an entry,
        // and every entry's identifier is below the next one.
        assert(!o.root.panes().contains(id)) by {
            crate::tabs::lemma_pane_ids_below(a);
            if o.root.panes().contains(id) {
                let m = choose|m: int| 0 <= m < o.root.panes().len() && o.root.panes()[m] == id;
                assert(entry_for(o.panes, o.root.panes()[m]));
            }
        }
        let old_panes = o.root.panes();
        let new_panes = t.root.panes();
        assert(new_panes.no_duplicates()) by {
            assert forall|x: int, y: int| 0 <= x < y < new_panes.len() implies new_panes[x] != new_panes[y] by {
                if x <= k && y <= k {
                    assert(new_panes[x] == old_panes[x] && new_panes[y] == old_panes[y]);
                } else if x <= k && y == k + 1 {
                    assert(new_panes[x] == old_panes[x]);
                } else if x <= k {
                    assert(new_panes[x] == old_panes[x] && new_panes[y] == old_panes[y - 1]);
                } else if x == k + 1 {
                    assert(new_panes[y] == old_panes[y - 1]);
                } else {
                    assert(new_panes[x] == old_panes[x - 1] && new_panes[y] == old_panes[y - 1]);
                }
            }
        }
        assert forall|q: int| 0 <= q < new_panes.len() implies entry_for(t.panes, #[trigger] new_panes[q]) by {
            if q == k + 1 {
                assert(t.panes[t.panes.len() - 1].id == new_panes[q]);
            } else {
                let p = if q <= k { q } else { q - 1 };
                assert(new_panes[q] == old_panes[p]);
                assert(entry_for(o.panes, old_panes[p]));
                let j = choose|j: int| 0 <= j < o.panes.len() && (#[trigger] o.panes[j]).id == old_panes[p];
                assert(t.panes.drop_last()[j] == o.panes[j]);
                assert(t.panes[j].id == new_panes[q]);
            }
        }
        assert(tab_consistent(t));
        assert forall|q: int| 0 <= q < b.tabs().len() implies tab_consistent(#[trigger] b.tabs()[q]) by {
            if q != a.active() {
                assert(tab_consistent(a.tabs()[q]));
            }
        }
    }
}

/// Closing the focused pane keeps the session consistent: the pane leaves
/// the layout together with its entry.
pub proof fn law_close_pane_keeps_consistency(a: TabManager, b: TabManager, r: Result<PaneId, TabsError>)
    requires
        a.wf(),
        panes_consistent(a.tabs()),
        close_pane_outcome(a, b, r),
    ensures
        panes_consistent(b.tabs()),
{
    lemma_consistent_by_tab(a.tabs());
    lemma_consistent_by_tab(b.tabs());
    let o = a.active_model();
    assert(tab_consistent(o));
    if o.root.panes().len() > 1 {
        let t = b.active_model();
        assert(layout_closed(o, t));
        let k = choose|k: int|
            0 <= k < o.root.panes().len() && o.root.panes()[k] == o.focused && t.root.panes() == o.root.panes().remove(k);
        assert(0 <= k < o.root.panes().len() && o.root.panes()[k] == o.focused && t.root.panes() == o.root.panes().remove(k));
        let old_panes = o.root.panes();
        let new_panes = t.root.panes();
        assert(new_panes.no_duplicates()) by {
            assert forall|x: int, y: int| 0 <= x < y < new_panes.len() implies new_panes[x] != new_panes[y] by {
                let px = if x < k { x } else { x + 1 };
                let py = if y < k { y } else { y + 1 };
                assert(new_panes[x] == old_panes[px] && new_panes[y] == old_panes[py]);
            }
        }
        assert forall|q: int| 0 <= q < new_panes.len() implies entry_for(t.panes, #[trigger] new_panes[q]) by {
            let p = if q < k { q } else { q + 1 };
            assert(new_panes[q] == old_panes[p]);
            assert(old_panes[p] != o.focused);
            assert(entry_for(o.panes, old_panes[p]));
            let e = choose|e: int| 0 <= e < o.panes.len() && (#[trigger] o.panes[e]).id == old_panes[p];
            match entry_of(o.panes, o.focused) {
                Some(j) => {
                    assert(o.panes[j].id == o.focused);
                    assert(e != j);
                    let f = if e < j { e } else { e - 1 };
                    assert(t.panes[f] == o.panes[e]);
                    assert(t.panes[f].id == new_panes[q]);
                },
                None => {
                    assert(t.panes[e].id == new_panes[q]);
                },
            }
        }
        assert(tab_consistent(t));
        assert(b.tabs() == a.tabs().update(a.active(), t));
        lemma_consistent_update(a.tabs(), a.active(), t);
    } else {
        // A layout always holds its focused pane, so here it holds just that.
        reveal(crate::tabs::tabs_ok);
        assert(tab_ok(a.tabs()[a.active()]));
        assert(o.root.panes().contains(o.focused));
        assert(b.tabs() == a.tabs());
    }
}

/// Giving a tab a new layout over the same panes, as moving the focus and
/// resizing do, keeps the session consistent.
pub proof fn law_relayout_keeps_consistency(tabs: Seq<TabModel>, i: int, root: NodeModel, focused: PaneId)
    requires
        panes_consistent(tabs),
        0 <= i < tabs.len(),
        root.panes() == tabs[i].root.panes(),
    ensures
        panes_consistent(with_layout(tabs, i, root, focused)),
{
    lemma_consistent_by_tab(tabs);
    let t = tabs[i];
    let u = TabModel { root, focused, ..t };
    assert(tab_consistent(t));
    lemma_same_names(t, u);
    lemma_consistent_update(tabs, i, u);
}

/// Changing an entry but not its pane, as renaming a pane, scrolling and
/// new output do, keeps the session consistent.
pub proof fn law_entry_change_keeps_consistency(tabs: Seq<TabModel>, i: int, j: int, p: PaneModel)
    requires
        panes_consistent(tabs),
        0 <= i < tabs.len(),
        0 <= j < tabs[i].panes.len(),
        p.id == tabs[i].panes[j].id,
    ensures
        panes_consistent(with_entry(tabs, i, j, p)),
{
    lemma_consistent_by_tab(tabs);
    let t = tabs[i];
    let u = TabModel { panes: t.panes.update(j, p), ..t };
    assert(tab_consistent(t));
    lemma_same_names(t, u);
    lemma_consistent_update(tabs, i, u);
}

/// Changing only the screens of the panes, as resizing a tab and reading
/// the shells' output do, keeps the session consistent.
pub proof fn law_screens_keep_consistency(a: Seq<TabModel>, b: Seq<TabModel>)
    requires
        panes_consistent(a),
        tabs_like(a, b),
    ensures
        panes_consistent(b),
{
    lemma_consistent_by_tab(a);
    lemma_consistent_by_tab(b);
    assert forall|q: int| 0 <= q < b.len() implies tab_consistent(#[trigger] b[q]) by {
        assert(tab_consistent(a[q]));
        lemma_same_names(a[q], b[q]);
    }
}

/// The identifier a split hands out is held by no layout pane of a
/// consistent session.
proof fn lemma_split_id_fresh(a: TabManager, id: PaneId)
    requires
        a.wf(),
        panes_consistent(a.tabs()),
        id@ == a.allocator().next_pane_raw(),
    ensures
        !a.active_model().root.panes().contains(id),
{
    lemma_consistent_by_tab(a.tabs());
    let o = a.active_model();
    assert(tab_consistent(o));
    crate::tabs::lemma_pane_ids_below(a);
    if o.root.panes().contains(id) {
        let m = choose|m: int| 0 <= m < o.root.panes().len() && o.root.panes()[m] == id;
        assert(entry_for(o.panes, o.root.panes()[m]));
        let j = choose|j: int| 0 <= j < o.panes.len() && (#[trigger] o.panes[j]).id == o.root.panes()[m];
        assert(a.tabs()[a.active()].panes[j].id@ < a.allocator().next_pane_raw());
    }
}

/// Closing the tab just opened gives back the tabs there were, and reports
/// the new tab as closed.
pub proof fn law_close_undoes_new_tab(
    a: TabManager,
    b: TabManager,
    id: crate::base::TabId,
    cwd: Seq<char>,
    c: TabManager,
    r: Result<crate::base::TabId, TabsError>,
)
    requires
        a.wf(),
        new_tab_outcome(a, b, id, cwd),
        close_tab_outcome(b, c, r),
    ensures
        c.tabs() == a.tabs(),
        r == Ok::<crate::base::TabId, TabsError>(id),
        c.active() == a.tabs().len() - 1,
{
    assert(b.tabs().remove(a.tabs().len() as int) =~= a.tabs());
}

/// Splitting the focused pane and then closing the pane the split opened
/// gives back the active tab's layout, the same tree with the same
/// weights, and its entries; the other tabs are untouched.
pub proof fn law_split_then_close(
    a: TabManager,
    b: TabManager,
    direction: SplitDirection,
    cwd: Seq<char>,
    r: Result<PaneId, TabsError>,
    c: TabManager,
    r2: Result<PaneId, TabsError>,
)
    requires
        a.wf(),
        panes_consistent(a.tabs()),
        split_outcome(a, b, direction, cwd, r),
        r is Ok,
        close_pane_outcome(b, c, r2),
    ensures
        r2 == r,
        c.active() == a.active(),
        c.tabs().len() == a.tabs().len(),
        c.active_model().root == a.active_model().root,
        c.active_model().root.panes() == a.active_model().root.panes(),
        c.active_model().panes == a.active_model().panes,
        forall|q: int| 0 <= q < a.tabs().len() && q != a.active() ==> #[trigger] c.tabs()[q] == a.tabs()[q],
{
    let id = r->Ok_0;
    let o = a.active_model();
    let t = b.active_model();
    let u = c.active_model();
    lemma_split_id_fresh(a, id);
    let k = choose|k: int| is_first_occurrence(o.root.panes(), k, o.focused) && t.root.panes() == o.root.panes().insert(k + 1, id);
    assert(is_first_occurrence(o.root.panes(), k, o.focused) && t.root.panes() == o.root.panes().insert(k + 1, id));
    let bp = t.root.panes();
    assert(bp.len() > 1);
    assert(layout_closed(t, u));
    let k2 = choose|k2: int| 0 <= k2 < bp.len() && bp[k2] == t.focused && u.root.panes() == bp.remove(k2);
    assert(0 <= k2 < bp.len() && bp[k2] == t.focused && u.root.panes() == bp.remove(k2));
    // The new pane occurs once, right after the pane that was split.
    if k2 != k + 1 {
        let p = if k2 <= k { k2 } else { k2 - 1 };
        assert(bp[k2] == o.root.panes()[p]);
        assert(o.root.panes().contains(id));
    }
    assert(bp.remove(k + 1) =~= o.root.panes());
    // Its entry is the last one, the entries having distinct identifiers.
    reveal(crate::tabs::tabs_ok);
    assert(tab_ok(b.tabs()[b.active()]));
    let last = t.panes.len() - 1;
    assert(t.panes[last].id == id);
    assert(entry_of(t.panes, id) is Some);
    let j = entry_of(t.panes, id)->0;
    assert(t.panes[j].id == id);
    if j != last {
        assert(t.panes[j].id != t.panes[last].id);
    }
    assert(t.panes.remove(last) =~= t.panes.drop_last());
    assert(tab_ok(a.tabs()[a.active()]));
    crate::layout::lemma_close_undoes_split(o.root, o.focused, direction, id);
    assert forall|q: int| 0 <= q < a.tabs().len() && q != a.active() implies #[trigger] c.tabs()[q] == a.tabs()[q] by {
        assert(b.tabs()[q] == a.tabs()[q]);
        assert(c.tabs()[q] == b.tabs()[q]);
    }
}

/// Giving a tab a new title keeps the session consistent.
pub proof fn law_retitle_keeps_consistency(tabs: Seq<TabModel>, i: int, title: Seq<char>)
    requires
        panes_consistent(tabs),
        0 <= i < tabs.len(),
    ensures
        panes_consistent(tabs.update(i, TabModel { title, ..tabs[i] })),
{
    lemma_consistent_by_tab(tabs);
    let t = tabs[i];
    let u = TabModel { title, ..t };
    assert(tab_consistent(t));
    lemma_same_names(t, u);
    lemma_consistent_update(tabs, i, u);
}

/// A session restored from a coherent saved session has an entry for each
/// pane of its layouts, so it can be saved again.
pub proof fn law_restored_session_saves(s: crate::session::SessionSnapshot, m: TabManager)
    requires
        crate::tabs::restorable(s.tabs@),
        crate::session::validation(s.tabs@, s.active_tab) is Ok,
        m.tabs().len() == s.tabs@.len(),
        forall|i: int| 0 <= i < s.tabs@.len() ==> crate::tabs::tab_restored(#[trigger] m.tabs()[i], s.tabs@[i]),
    ensures
        all_entries(m.tabs()),
{
    assert forall|i: int, k: int| 0 <= i < m.tabs().len() && 0 <= k < m.tabs()[i].root.panes().len() implies entry_of(
        m.tabs()[i].panes,
        #[trigger] m.tabs()[i].root.panes()[k],
    ) is Some by {
        let st = s.tabs@[i];
        let t = m.tabs()[i];
        assert(crate::tabs::tab_restored(t, st));
        crate::session::lemma_validated_tab(s.tabs@, s.active_tab, i);
        crate::snapshot::law_normalize_idempotent(st.layout.root@);
        let p = t.root.panes()[k];
        assert(st.layout.root@.panes().contains(p));
        let ids = crate::session::pane_ids_of(st.panes@);
        assert(ids.contains(p));
        let j = choose|j: int| 0 <= j < ids.len() && ids[j] == p;
        assert(crate::tabs::pane_restored(t.panes[j], st.panes@[j]));
        assert(t.panes[j].id == p);
        lemma_entry_of_some(t.panes, p);
    }
}

} // verus!
