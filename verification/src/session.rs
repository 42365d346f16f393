//! The saved state of a session: its tabs, their layouts and the working
//! directories of their panes, and the check that such a state is coherent.

use vstd::prelude::*;

use crate::base::{PaneId, TabId};
use crate::snapshot::LayoutSnapshot;
use crate::text::{decimal_text, push_str, u64_text};

verus! {

broadcast use {vstd::std_specs::vec::group_vec_axioms, crate::base::group_id_injective};

/// A saved pane: its identifier, its working directory and its title
/// (empty when it has none of its own).
#[derive(Debug, Clone, PartialEq, Eq)]
pub struct PaneSnapshot {
    pub id: PaneId,
    pub cwd: String,
    pub title: String,
}

/// A saved tab.
#[derive(Debug)]
pub struct TabSnapshot {
    pub id: TabId,
    pub title: String,
    pub layout: LayoutSnapshot,
    pub panes: Vec<PaneSnapshot>,
    pub active_pane: PaneId,
}

/// A saved session: its tabs, in order, and the active one.
#[derive(Debug)]
pub struct SessionSnapshot {
    pub tabs: Vec<TabSnapshot>,
    pub active_tab: TabId,
}

/// Why a saved session is not coherent.
#[derive(Debug, Clone, Copy, PartialEq, Eq, Structural)]
pub enum SessionValidationError {
    NoTabs,
    MissingActiveTab(TabId),
    DuplicateTabId(TabId),
    DuplicatePaneId(PaneId),
    MissingActivePane { tab_id: TabId, pane_id: PaneId },
    MissingPaneInLayout { tab_id: TabId, pane_id: PaneId },
}

/// The identifiers of saved panes, in order.
pub open spec fn pane_ids_of(ps: Seq<PaneSnapshot>) -> Seq<PaneId> {
    ps.map_values(|p: PaneSnapshot| p.id)
}

/// `ids[k]` is the first identifier that occurred before, in `prev` or
/// earlier in `ids`.
pub open spec fn is_first_repeat(prev: Seq<PaneId>, ids: Seq<PaneId>, k: int) -> bool {
    &&& 0 <= k < ids.len()
    &&& seen_before(prev, ids, k)
    &&& forall|j: int| 0 <= j < k ==> !#[trigger] seen_before(prev, ids, j)
}

/// `ids[j]` occurred before: in `prev` or earlier in `ids`.
pub open spec fn seen_before(prev: Seq<PaneId>, ids: Seq<PaneId>, j: int) -> bool {
    prev.contains(ids[j]) || ids.take(j).contains(ids[j])
}

/// `p` is the smallest pane of the layout that has no saved pane.
pub open spec fn is_least_missing(layout: Seq<PaneId>, ids: Seq<PaneId>, p: PaneId) -> bool {
    &&& layout.contains(p)
    &&& !ids.contains(p)
    &&& forall|q: PaneId| layout.contains(q) && !ids.contains(q) ==> p@ <= q@
}

/// What is wrong with one tab, given the tabs and panes before it: a tab
/// identifier seen before; a layout whose focused pane is not in it; an
/// active pane that is not saved; a pane identifier seen before (the first
/// one); a pane of the layout that is not saved (the smallest); an active
/// pane that is not in the layout.
pub open spec fn tab_error(tab: TabSnapshot, seen_tabs: Seq<TabId>, prev: Seq<PaneId>) -> Option<SessionValidationError> {
    let ids = pane_ids_of(tab.panes@);
    let lp = tab.layout.root@.panes();
    if seen_tabs.contains(tab.id) {
        Some(SessionValidationError::DuplicateTabId(tab.id))
    } else if !lp.contains(tab.layout.focused_pane) {
        Some(SessionValidationError::MissingPaneInLayout { tab_id: tab.id, pane_id: tab.active_pane })
    } else if !ids.contains(tab.active_pane) {
        Some(SessionValidationError::MissingActivePane { tab_id: tab.id, pane_id: tab.active_pane })
    } else if exists|k: int| is_first_repeat(prev, ids, k) {
        Some(SessionValidationError::DuplicatePaneId(ids[choose|k: int| is_first_repeat(prev, ids, k)]))
    } else if exists|p: PaneId| lp.contains(p) && !ids.contains(p) {
        Some(SessionValidationError::MissingPaneInLayout {
            tab_id: tab.id,
            pane_id: choose|p: PaneId| is_least_missing(lp, ids, p),
        })
    } else if !lp.contains(tab.active_pane) {
        Some(SessionValidationError::MissingPaneInLayout { tab_id: tab.id, pane_id: tab.active_pane })
    } else {
        None
    }
}

/// The first thing wrong with the tabs, checked in order.
pub open spec fn first_tab_error(tabs: Seq<TabSnapshot>, seen_tabs: Seq<TabId>, prev: Seq<PaneId>) -> Option<SessionValidationError>
    decreases tabs.len(),
{
    if tabs.len() == 0 {
        None
    } else {
        match tab_error(tabs[0], seen_tabs, prev) {
            Some(e) => Some(e),
            None => first_tab_error(tabs.drop_first(), seen_tabs.push(tabs[0].id), prev + pane_ids_of(tabs[0].panes@)),
        }
    }
}

/// The outcome of checking a session: no tabs; else the first thing wrong
/// with a tab; else an active tab that does not exist.
pub open spec fn validation(tabs: Seq<TabSnapshot>, active_tab: TabId) -> Result<(), SessionValidationError> {
    if tabs.len() == 0 {
        Err(SessionValidationError::NoTabs)
    } else {
        match first_tab_error(tabs, seq![], seq![]) {
            Some(e) => Err(e),
            None => if exists|i: int| 0 <= i < tabs.len() && #[trigger] tabs[i].id == active_tab {
                Ok(())
            } else {
                Err(SessionValidationError::MissingActiveTab(active_tab))
            },
        }
    }
}

fn contains_pane(ids: &Vec<PaneId>, x: PaneId) -> (r: bool)
    ensures
        r == ids@.contains(x),
{
    let mut i: usize = 0;
    while i < ids.len()
        invariant
            0 <= i <= ids@.len(),
            forall|j: int| 0 <= j < i ==> ids@[j] != x,
        decreases ids@.len() - i,
    {
        if ids[i] == x {
            proof {
                assert(ids@[i as int] == x);
            }
            return true;
        }
        i = i + 1;
    }
    false
}

fn contains_tab(ids: &Vec<TabId>, x: TabId) -> (r: bool)
    ensures
        r == ids@.contains(x),
{
    let mut i: usize = 0;
    while i < ids.len()
        invariant
            0 <= i <= ids@.len(),
            forall|j: int| 0 <= j < i ==> ids@[j] != x,
        decreases ids@.len() - i,
    {
        if ids[i] == x {
            proof {
                assert(ids@[i as int] == x);
            }
            return true;
        }
        i = i + 1;
    }
    false
}

/// The identifiers of saved panes.
fn pane_ids_vec(panes: &Vec<PaneSnapshot>) -> (ids: Vec<PaneId>)
    ensures
        ids@ == pane_ids_of(panes@),
{
    let mut ids: Vec<PaneId> = Vec::new();
    let mut i: usize = 0;
    while i < panes.len()
        invariant
            0 <= i <= panes@.len(),
            ids@ == pane_ids_of(panes@.take(i as int)),
        decreases panes@.len() - i,
    {
        ids.push(panes[i].id);
        proof {
            assert(pane_ids_of(panes@.take(i + 1)) =~= pane_ids_of(panes@.take(i as int)).push(panes@[i as int].id));
        }
        i = i + 1;
    }
    proof {
        assert(panes@.take(i as int) =~= panes@);
    }
    ids
}

/// Checks one tab; on success, records its identifier and its panes.
#[verifier::loop_isolation(false)]
fn check_tab(tab: &TabSnapshot, seen_tabs: &mut Vec<TabId>, seen_panes: &mut Vec<PaneId>) -> (r: Option<SessionValidationError>)
    ensures
        r == tab_error(*tab, old(seen_tabs)@, old(seen_panes)@),
        r is None ==> final(seen_tabs)@ == old(seen_tabs)@.push(tab.id),
        r is None ==> final(seen_panes)@ == old(seen_panes)@ + pane_ids_of(tab.panes@),
{
    let ghost prev = seen_panes@;
    let ids = pane_ids_vec(&tab.panes);
    let layout_panes = tab.layout.root.pane_ids();
    let ghost lp = layout_panes@;
    if contains_tab(seen_tabs, tab.id) {
        return Some(SessionValidationError::DuplicateTabId(tab.id));
    }
    if !contains_pane(&layout_panes, tab.layout.focused_pane) {
        return Some(SessionValidationError::MissingPaneInLayout { tab_id: tab.id, pane_id: tab.active_pane });
    }
    if !contains_pane(&ids, tab.active_pane) {
        return Some(SessionValidationError::MissingActivePane { tab_id: tab.id, pane_id: tab.active_pane });
    }
    let mut k: usize = 0;
    while k < ids.len()
        invariant
            0 <= k <= ids@.len(),
            seen_panes@ == prev + ids@.take(k as int),
            forall|j: int| 0 <= j < k ==> !#[trigger] seen_before(prev, ids@, j),
        decreases ids@.len() - k,
    {
        let id = ids[k];
        if contains_pane(seen_panes, id) {
            proof {
                let s = prev + ids@.take(k as int);
                let t = choose|t: int| 0 <= t < s.len() && s[t] == id;
                if t < prev.len() {
                    assert(prev[t] == id);
                    assert(prev.contains(id));
                } else {
                    assert(ids@.take(k as int)[t - prev.len()] == id);
                    assert(ids@.take(k as int).contains(id));
                }
                assert(seen_before(prev, ids@, k as int));
                assert(is_first_repeat(prev, ids@, k as int));
                let c = choose|c: int| is_first_repeat(prev, ids@, c);
                if c < k {
                } else if c > k {
                }
                assert(c == k);
            }
            return Some(SessionValidationError::DuplicatePaneId(id));
        }
        proof {
            assert(!prev.contains(id)) by {
                if prev.contains(id) {
                    let t = choose|t: int| 0 <= t < prev.len() && prev[t] == id;
                    assert((prev + ids@.take(k as int))[t] == id);
                }
            }
            assert(!ids@.take(k as int).contains(id)) by {
                if ids@.take(k as int).contains(id) {
                    let t = choose|t: int| 0 <= t < k && ids@.take(k as int)[t] == id;
                    assert((prev + ids@.take(k as int))[prev.len() + t] == id);
                }
            }
        }
        proof {
            assert(!seen_before(prev, ids@, k as int));
        }
        seen_panes.push(id);
        proof {
            assert(seen_panes@ =~= prev + ids@.take(k + 1));
        }
        k = k + 1;
    }
    proof {
        assert(ids@.take(k as int) =~= ids@);
        assert forall|c: int| !is_first_repeat(prev, ids@, c) by {
            if is_first_repeat(prev, ids@, c) {
                assert(!seen_before(prev, ids@, c));
            }
        }
    }
    let mut least: Option<PaneId> = None;
    let mut i: usize = 0;
    while i < layout_panes.len()
        invariant
            0 <= i <= lp.len(),
            lp == layout_panes@,
            least is None ==> forall|j: int| 0 <= j < i ==> ids@.contains(#[trigger] lp[j]),
            least matches Some(p) ==> lp.contains(p) && !ids@.contains(p) && forall|j: int|
                0 <= j < i && !ids@.contains(#[trigger] lp[j]) ==> p@ <= lp[j]@,
        decreases lp.len() - i,
    {
        let p = layout_panes[i];
        if !contains_pane(&ids, p) {
            let better = match least {
                None => true,
                Some(q) => p.get() < q.get(),
            };
            if better {
                least = Some(p);
            }
        }
        i = i + 1;
    }
    match least {
        Some(p) => {
            proof {
                assert(is_least_missing(lp, ids@, p)) by {
                    assert forall|q: PaneId| lp.contains(q) && !ids@.contains(q) implies p@ <= q@ by {
                        let j = choose|j: int| 0 <= j < lp.len() && lp[j] == q;
                    }
                }
                let c = choose|c: PaneId| is_least_missing(lp, ids@, c);
                assert(c@ <= p@ && p@ <= c@);
            }
            Some(SessionValidationError::MissingPaneInLayout { tab_id: tab.id, pane_id: p })
        },
        None => {
            proof {
                assert forall|q: PaneId| !(lp.contains(q) && !ids@.contains(q)) by {
                    if lp.contains(q) {
                        let j = choose|j: int| 0 <= j < lp.len() && lp[j] == q;
                    }
                }
            }
            if !contains_pane(&layout_panes, tab.active_pane) {
                return Some(SessionValidationError::MissingPaneInLayout { tab_id: tab.id, pane_id: tab.active_pane });
            }
            seen_tabs.push(tab.id);
            None
        },
    }
}

impl SessionSnapshot {
    /// Checks that the session is coherent: see `validation`.
    pub fn validate(&self) -> (r: Result<(), SessionValidationError>)
        ensures
            r == validation(self.tabs@, self.active_tab),
    {
        if self.tabs.len() == 0 {
            return Err(SessionValidationError::NoTabs);
        }
        let mut seen_tabs: Vec<TabId> = Vec::new();
        let mut seen_panes: Vec<PaneId> = Vec::new();
        let mut has_active_tab = false;
        let ghost tabs = self.tabs@;
        proof {
            assert(tabs.skip(0) =~= tabs);
            assert(seen_tabs@ =~= Seq::<TabId>::empty());
            assert(seen_panes@ =~= Seq::<PaneId>::empty());
        }
        let mut i: usize = 0;
        while i < self.tabs.len()
            invariant
                0 <= i <= tabs.len(),
                tabs == self.tabs@,
                tabs.len() > 0,
                first_tab_error(tabs, seq![], seq![]) == first_tab_error(tabs.skip(i as int), seen_tabs@, seen_panes@),
                has_active_tab <==> exists|j: int| 0 <= j < i && #[trigger] tabs[j].id == self.active_tab,
            decreases tabs.len() - i,
        {
            let tab = &self.tabs[i];
            proof {
                assert(tabs.skip(i as int)[0] == tabs[i as int]);
                assert(tabs.skip(i as int).drop_first() =~= tabs.skip(i + 1));
            }
            match check_tab(tab, &mut seen_tabs, &mut seen_panes) {
                Some(e) => {
                    return Err(e);
                },
                None => {},
            }
            if tab.id == self.active_tab {
                has_active_tab = true;
            }
            i = i + 1;
        }
        proof {
            assert(tabs.skip(i as int) =~= Seq::<TabSnapshot>::empty());
        }
        if !has_active_tab {
            return Err(SessionValidationError::MissingActiveTab(self.active_tab));
        }
        Ok(())
    }
}


/// What a tab that passed the check holds: its layout has the focused pane
/// and the active pane, the active pane is saved, no pane is saved twice,
/// and every pane of the layout is saved.
pub open spec fn tab_coherent(t: TabSnapshot) -> bool {
    let ids = pane_ids_of(t.panes@);
    let lp = t.layout.root@.panes();
    &&& lp.contains(t.layout.focused_pane)
    &&& lp.contains(t.active_pane)
    &&& ids.contains(t.active_pane)
    &&& forall|a: int, b: int| 0 <= a < b < ids.len() ==> ids[a] != ids[b]
    &&& forall|p: PaneId| lp.contains(p) ==> ids.contains(p)
}

/// Some identifier seen before gives a first one seen before.
proof fn lemma_first_repeat_exists(prev: Seq<PaneId>, ids: Seq<PaneId>, b: int)
    requires
        0 <= b < ids.len(),
        seen_before(prev, ids, b),
    ensures
        exists|k: int| is_first_repeat(prev, ids, k),
    decreases b,
{
    if exists|j: int| 0 <= j < b && #[trigger] seen_before(prev, ids, j) {
        let j = choose|j: int| 0 <= j < b && #[trigger] seen_before(prev, ids, j);
        lemma_first_repeat_exists(prev, ids, j);
    } else {
        assert(is_first_repeat(prev, ids, b));
    }
}

/// A tab with nothing wrong is coherent.
proof fn lemma_tab_error_none(t: TabSnapshot, seen_tabs: Seq<TabId>, prev: Seq<PaneId>)
    requires
        tab_error(t, seen_tabs, prev) is None,
    ensures
        tab_coherent(t),
{
    let ids = pane_ids_of(t.panes@);
    assert forall|a: int, b: int| 0 <= a < b < ids.len() implies ids[a] != ids[b] by {
        if ids[a] == ids[b] {
            assert(ids.take(b)[a] == ids[b]);
            assert(seen_before(prev, ids, b));
            lemma_first_repeat_exists(prev, ids, b);
        }
    }
}

/// Every tab of a session with nothing wrong with its tabs is coherent.
proof fn lemma_first_tab_error_none(tabs: Seq<TabSnapshot>, seen_tabs: Seq<TabId>, prev: Seq<PaneId>, i: int)
    requires
        first_tab_error(tabs, seen_tabs, prev) is None,
        0 <= i < tabs.len(),
    ensures
        tab_coherent(tabs[i]),
    decreases i,
{
    lemma_tab_error_none(tabs[0], seen_tabs, prev);
    if i > 0 {
        lemma_first_tab_error_none(tabs.drop_first(), seen_tabs.push(tabs[0].id), prev + pane_ids_of(tabs[0].panes@), i - 1);
        assert(tabs.drop_first()[i - 1] == tabs[i]);
    }
}

/// Tabs without an error have identifiers not seen before, and distinct.
proof fn lemma_first_tab_error_none_ids(tabs: Seq<TabSnapshot>, seen: Seq<TabId>, prev: Seq<PaneId>)
    requires
        first_tab_error(tabs, seen, prev) is None,
    ensures
        forall|i: int| 0 <= i < tabs.len() ==> !seen.contains(#[trigger] tabs[i].id),
        forall|i: int, j: int| 0 <= i < j < tabs.len() ==> (#[trigger] tabs[i]).id != (#[trigger] tabs[j]).id,
    decreases tabs.len(),
{
    if tabs.len() > 0 {
        let rest = tabs.drop_first();
        let seen2 = seen.push(tabs[0].id);
        assert(tab_error(tabs[0], seen, prev) is None);
        lemma_first_tab_error_none_ids(rest, seen2, prev + pane_ids_of(tabs[0].panes@));
        assert forall|i: int| 0 <= i < tabs.len() implies !seen.contains(#[trigger] tabs[i].id) by {
            if i > 0 {
                assert(tabs[i] == rest[i - 1]);
                assert(!seen2.contains(rest[i - 1].id));
                if seen.contains(tabs[i].id) {
                    let k = choose|k: int| 0 <= k < seen.len() && seen[k] == tabs[i].id;
                    assert(seen2[k] == tabs[i].id);
                }
            }
        }
        assert forall|i: int, j: int| 0 <= i < j < tabs.len() implies (#[trigger] tabs[i]).id != (#[trigger] tabs[j]).id by {
            assert(tabs[j] == rest[j - 1]);
            if i == 0 {
                assert(!seen2.contains(rest[j - 1].id));
                assert(seen2[seen.len() as int] == tabs[0].id);
            } else {
                assert(tabs[i] == rest[i - 1]);
            }
        }
    }
}

/// The tabs of a session that passes the check have distinct identifiers.
pub proof fn lemma_validated_tab_ids_distinct(tabs: Seq<TabSnapshot>, active_tab: TabId)
    requires
        validation(tabs, active_tab) is Ok,
    ensures
        forall|i: int, j: int| 0 <= i < tabs.len() && 0 <= j < tabs.len() && i != j ==> (#[trigger] tabs[i]).id != (#[trigger] tabs[j]).id,
{
    lemma_first_tab_error_none_ids(tabs, seq![], seq![]);
    assert forall|i: int, j: int| 0 <= i < tabs.len() && 0 <= j < tabs.len() && i != j implies (#[trigger] tabs[i]).id != (#[trigger] tabs[j]).id by {
        if i < j {
            assert(tabs[i].id != tabs[j].id);
        } else {
            assert(tabs[j].id != tabs[i].id);
        }
    }
}

/// Every tab of a session that passes the check is coherent.
pub proof fn lemma_validated_tab(tabs: Seq<TabSnapshot>, active_tab: TabId, i: int)
    requires
        validation(tabs, active_tab) is Ok,
        0 <= i < tabs.len(),
    ensures
        tab_coherent(tabs[i]),
{
    lemma_first_tab_error_none(tabs, seq![], seq![], i);
}

/// `TabId(n)`, as the identifier prints itself.
pub open spec fn tab_id_text(t: TabId) -> Seq<char> {
    "TabId("@ + decimal_text(t@ as nat) + ")"@
}

/// `PaneId(n)`, as the identifier prints itself.
pub open spec fn pane_id_text(p: PaneId) -> Seq<char> {
    "PaneId("@ + decimal_text(p@ as nat) + ")"@
}

/// A validation error as it prints itself for debugging.
pub open spec fn validation_error_text(e: SessionValidationError) -> Seq<char> {
    match e {
        SessionValidationError::NoTabs => "NoTabs"@,
        SessionValidationError::MissingActiveTab(t) => "MissingActiveTab("@ + tab_id_text(t) + ")"@,
        SessionValidationError::DuplicateTabId(t) => "DuplicateTabId("@ + tab_id_text(t) + ")"@,
        SessionValidationError::DuplicatePaneId(p) => "DuplicatePaneId("@ + pane_id_text(p) + ")"@,
        SessionValidationError::MissingActivePane { tab_id, pane_id } => "MissingActivePane { tab_id: "@ + tab_id_text(tab_id)
            + ", pane_id: "@ + pane_id_text(pane_id) + " }"@,
        SessionValidationError::MissingPaneInLayout { tab_id, pane_id } => "MissingPaneInLayout { tab_id: "@ + tab_id_text(
            tab_id,
        ) + ", pane_id: "@ + pane_id_text(pane_id) + " }"@,
    }
}

pub(crate) fn push_tab_id(s: &mut String, t: TabId)
    ensures
        final(s)@ == old(s)@ + tab_id_text(t),
{
    push_str(s, "TabId(");
    let n = u64_text(t.get());
    push_str(s, n.as_str());
    push_str(s, ")");
    proof {
        reveal_strlit("TabId(");
        reveal_strlit(")");
        assert(s@ =~= old(s)@ + tab_id_text(t));
    }
}

pub(crate) fn push_pane_id(s: &mut String, p: PaneId)
    ensures
        final(s)@ == old(s)@ + pane_id_text(p),
{
    push_str(s, "PaneId(");
    let n = u64_text(p.get());
    push_str(s, n.as_str());
    push_str(s, ")");
    proof {
        reveal_strlit("PaneId(");
        reveal_strlit(")");
        assert(s@ =~= old(s)@ + pane_id_text(p));
    }
}

impl SessionValidationError {
    /// The error as it prints itself for debugging.
    pub fn debug_text(&self) -> (s: String)
        ensures
            s@ == validation_error_text(*self),
    {
        let mut s = String::new();
        match *self {
            SessionValidationError::NoTabs => push_str(&mut s, "NoTabs"),
            SessionValidationError::MissingActiveTab(t) => {
                push_str(&mut s, "MissingActiveTab(");
                push_tab_id(&mut s, t);
                push_str(&mut s, ")");
            },
            SessionValidationError::DuplicateTabId(t) => {
                push_str(&mut s, "DuplicateTabId(");
                push_tab_id(&mut s, t);
                push_str(&mut s, ")");
            },
            SessionValidationError::DuplicatePaneId(p) => {
                push_str(&mut s, "DuplicatePaneId(");
                push_pane_id(&mut s, p);
                push_str(&mut s, ")");
            },
            SessionValidationError::MissingActivePane { tab_id, pane_id } => {
                push_str(&mut s, "MissingActivePane { tab_id: ");
                push_tab_id(&mut s, tab_id);
                push_str(&mut s, ", pane_id: ");
                push_pane_id(&mut s, pane_id);
                push_str(&mut s, " }");
            },
            SessionValidationError::MissingPaneInLayout { tab_id, pane_id } => {
                push_str(&mut s, "MissingPaneInLayout { tab_id: ");
                push_tab_id(&mut s, tab_id);
                push_str(&mut s, ", pane_id: ");
                push_pane_id(&mut s, pane_id);
                push_str(&mut s, " }");
            },
        }
        proof {
            assert(s@ =~= validation_error_text(*self));
        }
        s
    }
}

} // verus!
