use mtrm::base::{FocusMoveDirection, PaneId, ResizeDirection, SplitDirection};
use mtrm::layout::{LayoutError, LayoutTree, Rect};
use mtrm::snapshot::{
    LayoutNodeSnapshot, LayoutNodeSnapshotRepr, LayoutSnapshot, LayoutSplitSnapshotRepr,
};

fn rect(x: u16, y: u16, width: u16, height: u16) -> Rect {
    Rect { x, y, width, height }
}

fn assert_normalized(node: &LayoutNodeSnapshot) {
    match node {
        LayoutNodeSnapshot::Pane { .. } => {}
        LayoutNodeSnapshot::Split { direction, children } => {
            assert!(children.len() >= 2);
            for child in children {
                if let LayoutNodeSnapshot::Split { direction: child_direction, .. } = &child.node {
                    assert_ne!(direction, child_direction);
                }
                assert_normalized(&child.node);
            }
        }
    }
}

#[test]
fn new_layout_contains_single_root_pane() {
    let layout = LayoutTree::new(PaneId::new(1));
    assert_eq!(layout.focused_pane(), PaneId::new(1));
    assert_eq!(layout.pane_ids(), vec![PaneId::new(1)]);
    assert!(layout.contains(PaneId::new(1)));
}

#[test]
fn split_focused_vertical_creates_second_pane_and_focuses_it() {
    let mut layout = LayoutTree::new(PaneId::new(1));
    let new_pane = layout.split_focused(SplitDirection::Vertical, PaneId::new(2));
    assert_eq!(new_pane, PaneId::new(2));
    assert_eq!(layout.focused_pane(), PaneId::new(2));
    assert_eq!(layout.pane_ids(), vec![PaneId::new(1), PaneId::new(2)]);
}

#[test]
fn split_focused_horizontal_creates_expected_rectangles() {
    let mut layout = LayoutTree::new(PaneId::new(1));
    layout.split_focused(SplitDirection::Horizontal, PaneId::new(2));
    let placements = layout.placements(rect(0, 0, 80, 20));
    assert_eq!(placements.len(), 2);
    assert_eq!(placements[0].rect, rect(0, 0, 80, 10));
    assert_eq!(placements[1].rect, rect(0, 10, 80, 10));
}

#[test]
fn split_with_same_direction_flattens_into_one_container() {
    let mut layout = LayoutTree::new(PaneId::new(1));
    layout.split_focused(SplitDirection::Vertical, PaneId::new(2));
    layout.split_focused(SplitDirection::Vertical, PaneId::new(3));
    match layout.to_snapshot().root {
        LayoutNodeSnapshot::Split { direction, children } => {
            assert_eq!(direction, SplitDirection::Vertical);
            assert_eq!(children.len(), 3);
            for (index, expected) in [1, 2, 3].iter().enumerate() {
                assert!(matches!(children[index].node, LayoutNodeSnapshot::Pane { pane_id } if pane_id == PaneId::new(*expected)));
            }
        }
        other => panic!("expected root split, got {other:?}"),
    }
}

#[test]
fn split_with_other_direction_creates_nested_container() {
    let mut layout = LayoutTree::new(PaneId::new(1));
    layout.split_focused(SplitDirection::Vertical, PaneId::new(2));
    layout.split_focused(SplitDirection::Horizontal, PaneId::new(3));
    match layout.to_snapshot().root {
        LayoutNodeSnapshot::Split { direction, children } => {
            assert_eq!(direction, SplitDirection::Vertical);
            assert_eq!(children.len(), 2);
            assert!(matches!(children[0].node, LayoutNodeSnapshot::Pane { pane_id } if pane_id == PaneId::new(1)));
            match &children[1].node {
                LayoutNodeSnapshot::Split { direction, children } => {
                    assert_eq!(*direction, SplitDirection::Horizontal);
                    assert_eq!(children.len(), 2);
                }
                other => panic!("expected nested split, got {other:?}"),
            }
        }
        other => panic!("expected root split, got {other:?}"),
    }
}

#[test]
fn resize_right_changes_boundary_by_one_cell() {
    let mut layout = LayoutTree::new(PaneId::new(1));
    layout.split_focused(SplitDirection::Vertical, PaneId::new(2));
    layout.focus_pane(PaneId::new(1)).unwrap();
    let area = rect(0, 0, 40, 12);
    let before = layout.placements(area);
    let changed = layout.resize_focused(ResizeDirection::Right, area).unwrap();
    let after = layout.placements(area);
    assert!(changed);
    assert_eq!(after[0].rect.width, before[0].rect.width + 1);
    assert_eq!(after[1].rect.width + 1, before[1].rect.width);
}

#[test]
fn resize_left_after_resize_right_reverts_boundary_by_one_cell() {
    let mut layout = LayoutTree::new(PaneId::new(1));
    layout.split_focused(SplitDirection::Vertical, PaneId::new(2));
    layout.focus_pane(PaneId::new(1)).unwrap();
    let area = rect(0, 0, 40, 12);
    let before = layout.placements(area);
    assert!(layout.resize_focused(ResizeDirection::Right, area).unwrap());
    let changed = layout.resize_focused(ResizeDirection::Left, area).unwrap();
    let after = layout.placements(area);
    assert!(changed);
    assert_eq!(after[0].rect.width, before[0].rect.width);
    assert_eq!(after[1].rect.width, before[1].rect.width);
}

#[test]
fn resize_respects_minimum_pane_width() {
    let mut layout = LayoutTree::new(PaneId::new(1));
    layout.split_focused(SplitDirection::Vertical, PaneId::new(2));
    layout.focus_pane(PaneId::new(1)).unwrap();
    let changed = layout.resize_focused(ResizeDirection::Right, rect(0, 0, 16, 12)).unwrap();
    assert!(!changed);
}

#[test]
fn close_focused_removes_pane_and_focuses_sibling() {
    let mut layout = LayoutTree::new(PaneId::new(1));
    layout.split_focused(SplitDirection::Vertical, PaneId::new(2));
    let closed = layout.close_focused().unwrap();
    assert_eq!(closed, PaneId::new(2));
    assert_eq!(layout.focused_pane(), PaneId::new(1));
    assert_eq!(layout.pane_ids(), vec![PaneId::new(1)]);
}

#[test]
fn close_focused_collapses_degenerate_container() {
    let mut layout = LayoutTree::new(PaneId::new(1));
    layout.split_focused(SplitDirection::Vertical, PaneId::new(2));
    layout.split_focused(SplitDirection::Horizontal, PaneId::new(3));
    let closed = layout.close_focused().unwrap();
    assert_eq!(closed, PaneId::new(3));
    assert_eq!(layout.focused_pane(), PaneId::new(2));
    match layout.to_snapshot().root {
        LayoutNodeSnapshot::Split { direction, children } => {
            assert_eq!(direction, SplitDirection::Vertical);
            assert_eq!(children.len(), 2);
        }
        other => panic!("expected root split, got {other:?}"),
    }
}

#[test]
fn close_last_pane_is_rejected() {
    let mut layout = LayoutTree::new(PaneId::new(1));
    let error = layout.close_focused().unwrap_err();
    assert_eq!(error, LayoutError::CannotCloseLastPane);
}

#[test]
fn focus_pane_rejects_unknown_pane() {
    let mut layout = LayoutTree::new(PaneId::new(1));
    let error = layout.focus_pane(PaneId::new(99)).unwrap_err();
    assert_eq!(error, LayoutError::PaneNotFound(PaneId::new(99)));
}

#[test]
fn move_focus_uses_direction_on_composite_layout() {
    let mut layout = LayoutTree::new(PaneId::new(1));
    layout.split_focused(SplitDirection::Vertical, PaneId::new(2));
    layout.split_focused(SplitDirection::Horizontal, PaneId::new(3));
    layout.focus_pane(PaneId::new(3)).unwrap();
    assert_eq!(layout.move_focus(FocusMoveDirection::Left).unwrap(), PaneId::new(1));
    assert_eq!(layout.move_focus(FocusMoveDirection::Right).unwrap(), PaneId::new(2));
    assert_eq!(layout.move_focus(FocusMoveDirection::Down).unwrap(), PaneId::new(3));
}

#[test]
fn move_focus_without_candidate_keeps_focus() {
    let mut layout = LayoutTree::new(PaneId::new(1));
    layout.split_focused(SplitDirection::Vertical, PaneId::new(2));
    assert_eq!(layout.move_focus(FocusMoveDirection::Right).unwrap(), PaneId::new(2));
    assert_eq!(layout.move_focus(FocusMoveDirection::Up).unwrap(), PaneId::new(2));
}

#[test]
fn placements_return_all_panes_without_duplicates() {
    let mut layout = LayoutTree::new(PaneId::new(1));
    layout.split_focused(SplitDirection::Vertical, PaneId::new(2));
    layout.split_focused(SplitDirection::Horizontal, PaneId::new(3));
    let placements = layout.placements(rect(0, 0, 120, 40));
    let pane_ids: Vec<_> = placements.iter().map(|placement| placement.pane_id).collect();
    assert_eq!(pane_ids.len(), 3);
    assert!(pane_ids.contains(&PaneId::new(1)));
    assert!(pane_ids.contains(&PaneId::new(2)));
    assert!(pane_ids.contains(&PaneId::new(3)));
    assert_eq!(placements.iter().filter(|p| p.focused).count(), 1);
}

#[test]
fn placements_cover_the_area_exactly() {
    let mut layout = LayoutTree::new(PaneId::new(1));
    layout.split_focused(SplitDirection::Vertical, PaneId::new(2));
    layout.split_focused(SplitDirection::Vertical, PaneId::new(3));
    let placements = layout.placements(rect(0, 0, 100, 10));
    let total: u16 = placements.iter().map(|p| p.rect.width).sum();
    assert_eq!(total, 100);
    assert_eq!(placements[0].rect.x, 0);
    assert_eq!(placements[1].rect.x, placements[0].rect.width);
}

#[test]
fn snapshot_roundtrip_preserves_structure_and_focus() {
    let mut layout = LayoutTree::new(PaneId::new(1));
    layout.split_focused(SplitDirection::Vertical, PaneId::new(2));
    layout.split_focused(SplitDirection::Horizontal, PaneId::new(3));
    layout.focus_pane(PaneId::new(2)).unwrap();
    let snapshot = layout.to_snapshot();
    let restored = LayoutTree::from_snapshot(snapshot).unwrap();
    assert_eq!(restored.focused_pane(), PaneId::new(2));
    assert_eq!(restored.pane_ids(), layout.pane_ids());
    assert_eq!(restored.placements(rect(0, 0, 100, 50)), layout.placements(rect(0, 0, 100, 50)));
    assert_normalized(&restored.to_snapshot().root);
}

fn pane_repr(id: u64) -> LayoutNodeSnapshotRepr {
    LayoutNodeSnapshotRepr { pane: Some(PaneId::new(id)), split: None }
}

#[test]
fn normalize_flattens_same_direction_levels_from_binary_snapshot() {
    let inner = LayoutNodeSnapshotRepr {
        pane: None,
        split: Some(LayoutSplitSnapshotRepr::Binary {
            direction: SplitDirection::Vertical,
            first: Box::new(pane_repr(2)),
            second: Box::new(pane_repr(3)),
        }),
    };
    let root = LayoutNodeSnapshotRepr {
        pane: None,
        split: Some(LayoutSplitSnapshotRepr::Binary {
            direction: SplitDirection::Vertical,
            first: Box::new(pane_repr(1)),
            second: Box::new(inner),
        }),
    };
    let snapshot = LayoutSnapshot { root: LayoutNodeSnapshot::from_repr(root), focused_pane: PaneId::new(1) };
    let restored = LayoutTree::from_snapshot(snapshot).unwrap();
    match restored.to_snapshot().root {
        LayoutNodeSnapshot::Split { direction, children } => {
            assert_eq!(direction, SplitDirection::Vertical);
            assert_eq!(children.len(), 3);
        }
        other => panic!("expected root split, got {other:?}"),
    }
}

#[test]
fn from_snapshot_rejects_focus_outside_layout() {
    let snapshot = LayoutSnapshot { root: LayoutNodeSnapshot::Pane { pane_id: PaneId::new(1) }, focused_pane: PaneId::new(5) };
    assert_eq!(LayoutTree::from_snapshot(snapshot).unwrap_err(), LayoutError::PaneNotFound(PaneId::new(5)));
}

#[test]
fn tree_remains_valid_after_random_splits_and_closes() {
    // A fixed pseudo-random sequence of operations in place of generated ones.
    let mut seed: u64 = 0x2545_f491_4f6c_dd1d;
    for _round in 0..64 {
        let mut layout = LayoutTree::new(PaneId::new(1));
        let mut next_pane_id = 2_u64;
        let count = 1 + (seed % 31) as usize;
        for _ in 0..count {
            seed ^= seed << 13;
            seed ^= seed >> 7;
            seed ^= seed << 17;
            match seed % 3 {
                0 => {
                    layout.split_focused(SplitDirection::Vertical, PaneId::new(next_pane_id));
                    next_pane_id += 1;
                }
                1 => {
                    layout.split_focused(SplitDirection::Horizontal, PaneId::new(next_pane_id));
                    next_pane_id += 1;
                }
                _ => {
                    let _ = layout.close_focused();
                }
            }
            let pane_ids = layout.pane_ids();
            assert!(!pane_ids.is_empty());
            assert!(pane_ids.contains(&layout.focused_pane()));
            let placements = layout.placements(rect(0, 0, 120, 60));
            assert_eq!(placements.len(), pane_ids.len());
            assert_normalized(&layout.to_snapshot().root);
            let mut seen = std::collections::BTreeSet::new();
            for placement in placements {
                assert!(seen.insert(placement.pane_id));
            }
        }
    }
}
