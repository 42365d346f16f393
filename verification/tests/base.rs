use mtrm::base::{IdAllocator, PaneId, SplitId, TabId};

#[test]
fn tab_id_roundtrip() {
    let id = TabId::new(42);
    assert_eq!(id.get(), 42);
}

#[test]
fn pane_id_roundtrip() {
    let id = PaneId::new(7);
    assert_eq!(id.get(), 7);
}

#[test]
fn split_id_roundtrip() {
    let id = SplitId::new(3);
    assert_eq!(id.get(), 3);
}

#[test]
fn ids_support_equality_and_inequality() {
    assert_eq!(TabId::new(1), TabId::new(1));
    assert_ne!(TabId::new(1), TabId::new(2));
    assert_eq!(PaneId::new(9), PaneId::new(9));
    assert_ne!(SplitId::new(4), SplitId::new(5));
}

#[test]
fn allocator_generates_monotonic_ids_per_kind() {
    let mut allocator = IdAllocator::new();

    assert_eq!(allocator.next_tab_id(), TabId::new(0));
    assert_eq!(allocator.next_tab_id(), TabId::new(1));
    assert_eq!(allocator.next_pane_id(), PaneId::new(0));
    assert_eq!(allocator.next_pane_id(), PaneId::new(1));
    assert_eq!(allocator.next_split_id(), SplitId::new(0));
    assert_eq!(allocator.next_split_id(), SplitId::new(1));
}

#[test]
fn allocator_advances_to_given_counters() {
    let mut allocator = IdAllocator::new();
    allocator.advance_to(5, 9);
    assert_eq!(allocator.next_tab_id(), TabId::new(5));
    assert_eq!(allocator.next_pane_id(), PaneId::new(9));
    assert_eq!(allocator.next_split_id(), SplitId::new(0));
}
