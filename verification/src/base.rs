//! Identifiers, directions, commands and the identifier allocator.

use vstd::prelude::*;

verus! {

/// Identifier of a tab.
#[derive(Debug, Clone, Copy, PartialEq, Eq, Structural, PartialOrd, Ord, Hash)]
pub struct TabId(u64);

/// Identifier of a pane.
#[derive(Debug, Clone, Copy, PartialEq, Eq, Structural, PartialOrd, Ord, Hash)]
pub struct PaneId(u64);

/// Identifier of a split container.
#[derive(Debug, Clone, Copy, PartialEq, Eq, Structural, PartialOrd, Ord, Hash)]
pub struct SplitId(u64);

impl View for TabId {
    type V = u64;

    closed spec fn view(&self) -> u64 {
        self.0
    }
}

impl View for PaneId {
    type V = u64;

    closed spec fn view(&self) -> u64 {
        self.0
    }
}

impl View for SplitId {
    type V = u64;

    closed spec fn view(&self) -> u64 {
        self.0
    }
}

/// Two tab identifiers with the same raw value are the same identifier.
pub broadcast proof fn lemma_tab_id_view_injective(a: TabId, b: TabId)
    ensures
        #[trigger] a@ == #[trigger] b@ ==> a == b,
{
}

/// Two pane identifiers with the same raw value are the same identifier.
pub broadcast proof fn lemma_pane_id_view_injective(a: PaneId, b: PaneId)
    ensures
        #[trigger] a@ == #[trigger] b@ ==> a == b,
{
}

/// Two split identifiers with the same raw value are the same identifier.
pub broadcast proof fn lemma_split_id_view_injective(a: SplitId, b: SplitId)
    ensures
        #[trigger] a@ == #[trigger] b@ ==> a == b,
{
}

pub broadcast group group_id_injective {
    lemma_tab_id_view_injective,
    lemma_pane_id_view_injective,
    lemma_split_id_view_injective,
}

impl TabId {
    pub fn new(raw: u64) -> (id: Self)
        ensures
            id@ == raw,
    {
        TabId(raw)
    }

    pub fn get(self) -> (raw: u64)
        ensures
            raw == self@,
    {
        self.0
    }
}

impl PaneId {
    /// The identifier with the given raw value.
    pub closed spec fn spec_new(raw: u64) -> PaneId {
        PaneId(raw)
    }

    pub fn new(raw: u64) -> (id: Self)
        ensures
            id@ == raw,
    {
        PaneId(raw)
    }

    pub fn get(self) -> (raw: u64)
        ensures
            raw == self@,
    {
        self.0
    }
}

impl SplitId {
    pub fn new(raw: u64) -> (id: Self)
        ensures
            id@ == raw,
    {
        SplitId(raw)
    }

    pub fn get(self) -> (raw: u64)
        ensures
            raw == self@,
    {
        self.0
    }
}

/// Orientation of a split: `Horizontal` stacks children top to bottom,
/// `Vertical` places them left to right.
#[derive(Debug, Clone, Copy, PartialEq, Eq, Structural)]
pub enum SplitDirection {
    Horizontal,
    Vertical,
}

#[derive(Debug, Clone, Copy, PartialEq, Eq, Structural)]
pub enum FocusMoveDirection {
    Left,
    Right,
    Up,
    Down,
}

#[derive(Debug, Clone, Copy, PartialEq, Eq, Structural)]
pub enum ResizeDirection {
    Left,
    Right,
    Up,
    Down,
}

#[derive(Debug, Clone, Copy, PartialEq, Eq, Structural)]
pub enum ClipboardCommand {
    CopySelection,
    PasteFromSystem,
}

#[derive(Debug, Clone, Copy, PartialEq, Eq, Structural)]
pub enum LayoutCommand {
    SplitFocused(SplitDirection),
    CloseFocusedPane,
    MoveFocus(FocusMoveDirection),
    ResizeFocused(ResizeDirection),
    ScrollUpLines(u16),
    ScrollDownLines(u16),
    ScrollUpPages(u16),
    ScrollDownPages(u16),
    ScrollToBottom,
}

#[derive(Debug, Clone, Copy, PartialEq, Eq, Structural)]
pub enum TabCommand {
    NewTab,
    CloseCurrentTab,
    NextTab,
    PreviousTab,
    Activate(TabId),
}

#[derive(Debug, Clone, Copy, PartialEq, Eq, Structural)]
pub enum AppCommand {
    Clipboard(ClipboardCommand),
    Layout(LayoutCommand),
    Tabs(TabCommand),
    SendInterrupt,
    RequestSave,
    Quit,
}

/// Hands out identifiers in increasing order, one counter per kind.
#[derive(Debug)]
pub struct IdAllocator {
    next_tab: u64,
    next_pane: u64,
    next_split: u64,
}

impl IdAllocator {
    /// The raw value that the next tab identifier will carry.
    pub closed spec fn next_tab_raw(&self) -> u64 {
        self.next_tab
    }

    /// The raw value that the next pane identifier will carry.
    pub closed spec fn next_pane_raw(&self) -> u64 {
        self.next_pane
    }

    /// The raw value that the next split identifier will carry.
    pub closed spec fn next_split_raw(&self) -> u64 {
        self.next_split
    }

    pub fn new() -> (ids: Self)
        ensures
            ids.next_tab_raw() == 0,
            ids.next_pane_raw() == 0,
            ids.next_split_raw() == 0,
    {
        IdAllocator { next_tab: 0, next_pane: 0, next_split: 0 }
    }

    pub fn next_tab_id(&mut self) -> (id: TabId)
        requires
            old(self).next_tab_raw() < u64::MAX,
        ensures
            id@ == old(self).next_tab_raw(),
            final(self).next_tab_raw() == old(self).next_tab_raw() + 1,
            final(self).next_pane_raw() == old(self).next_pane_raw(),
            final(self).next_split_raw() == old(self).next_split_raw(),
    {
        let id = TabId::new(self.next_tab);
        self.next_tab = self.next_tab + 1;
        id
    }

    pub fn next_pane_id(&mut self) -> (id: PaneId)
        requires
            old(self).next_pane_raw() < u64::MAX,
        ensures
            id@ == old(self).next_pane_raw(),
            final(self).next_pane_raw() == old(self).next_pane_raw() + 1,
            final(self).next_tab_raw() == old(self).next_tab_raw(),
            final(self).next_split_raw() == old(self).next_split_raw(),
    {
        let id = PaneId::new(self.next_pane);
        self.next_pane = self.next_pane + 1;
        id
    }

    pub fn next_split_id(&mut self) -> (id: SplitId)
        requires
            old(self).next_split_raw() < u64::MAX,
        ensures
            id@ == old(self).next_split_raw(),
            final(self).next_split_raw() == old(self).next_split_raw() + 1,
            final(self).next_tab_raw() == old(self).next_tab_raw(),
            final(self).next_pane_raw() == old(self).next_pane_raw(),
    {
        let id = SplitId::new(self.next_split);
        self.next_split = self.next_split + 1;
        id
    }

    /// Moves the counters of tabs and panes forward to `next_tab` and
    /// `next_pane`, as handing out identifiers up to them would.
    pub fn advance_to(&mut self, next_tab: u64, next_pane: u64)
        requires
            old(self).next_tab_raw() <= next_tab,
            old(self).next_pane_raw() <= next_pane,
        ensures
            final(self).next_tab_raw() == next_tab,
            final(self).next_pane_raw() == next_pane,
            final(self).next_split_raw() == old(self).next_split_raw(),
    {
        self.next_tab = next_tab;
        self.next_pane = next_pane;
    }

    /// Whether a further tab identifier can be handed out.
    pub fn can_allocate_tab(&self) -> (ok: bool)
        ensures
            ok == (self.next_tab_raw() < u64::MAX),
    {
        self.next_tab < u64::MAX
    }

    /// Whether a further pane identifier can be handed out.
    pub fn can_allocate_pane(&self) -> (ok: bool)
        ensures
            ok == (self.next_pane_raw() < u64::MAX),
    {
        self.next_pane < u64::MAX
    }
}

/// Identifiers handed out one after another are distinct and increasing.
pub proof fn law_allocator_ids_increase(a: IdAllocator, b: IdAllocator, first: PaneId, second: PaneId)
    requires
        first@ == a.next_pane_raw(),
        b.next_pane_raw() == a.next_pane_raw() + 1,
        second@ == b.next_pane_raw(),
    ensures
        first@ < second@,
        first != second,
{
}

/// One call of `next_pane_id`, as its contract states it: the pane counter
/// rises by one, the tab and split counters stay.
pub open spec fn pane_id_step(a: IdAllocator, b: IdAllocator) -> bool {
    &&& b.next_pane_raw() == a.next_pane_raw() + 1
    &&& b.next_tab_raw() == a.next_tab_raw()
    &&& b.next_split_raw() == a.next_split_raw()
}

/// One call of `next_tab_id` or `next_split_id`, as their contracts state
/// it: that counter rises by one, the pane counter stays.
pub open spec fn other_id_step(a: IdAllocator, b: IdAllocator) -> bool {
    &&& b.next_pane_raw() == a.next_pane_raw()
    &&& ((b.next_tab_raw() == a.next_tab_raw() + 1 && b.next_split_raw() == a.next_split_raw())
        || (b.next_split_raw() == a.next_split_raw() + 1 && b.next_tab_raw() == a.next_tab_raw()))
}

/// Tab and split identifiers handed out leave the pane counter where it was.
proof fn lemma_other_steps_keep_panes(states: Seq<IdAllocator>, i: int)
    requires
        1 <= i < states.len(),
        forall|k: int| 1 <= k < states.len() - 1 ==> #[trigger] other_id_step(states[k], states[k + 1]),
    ensures
        states[i].next_pane_raw() == states[1].next_pane_raw(),
    decreases i,
{
    if i > 1 {
        lemma_other_steps_keep_panes(states, i - 1);
        let k = i - 1;
        assert(other_id_step(states[k], states[k + 1]));
    }
}

/// Pane identifiers rise by exactly one from one pane to the next: after
/// `next_pane_id` hands out a pane identifier in the first step, and any
/// number of tab and split identifiers are handed out, the next pane
/// identifier is one more.
pub proof fn law_pane_ids_rise_by_one(states: Seq<IdAllocator>)
    requires
        states.len() >= 2,
        pane_id_step(states[0], states[1]),
        forall|k: int| 1 <= k < states.len() - 1 ==> #[trigger] other_id_step(states[k], states[k + 1]),
    ensures
        states.last().next_pane_raw() == states[0].next_pane_raw() + 1,
{
    lemma_other_steps_keep_panes(states, states.len() - 1);
}

} // verus!
