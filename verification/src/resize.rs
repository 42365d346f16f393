//! Resizing the focused pane: which split gives way, and how its children's
//! weights change.

use vstd::prelude::*;

use crate::base::{PaneId, ResizeDirection, SplitDirection};
use crate::geometry::{split_rects, split_rects_spec};
use crate::layout::{
    node_at, child_model, child_model_wf, children_model, lemma_split_model,
    lemma_split_wf_children, lemma_split_wf_intro, models_panes, ChildModel, LayoutNode,
    LayoutTree, NodeModel, Rect, SplitChild,
};
use crate::placement::{child_weights, lemma_child_count_bound, node_placements, weights_of, PanePlacement};

verus! {

broadcast use vstd::std_specs::vec::group_vec_axioms;

/// The narrowest a pane may become, in columns.
pub const MIN_PANE_WIDTH: u16 = 8;

/// The lowest a pane may become, in rows.
pub const MIN_PANE_HEIGHT: u16 = 4;

/// The split whose children a resize moves the border between: the path to
/// it from the root, the child on the way to the focused pane, and the
/// rectangles of its children.
pub struct TargetModel {
    pub path: Seq<int>,
    pub child_index: int,
    pub rects: Seq<Rect>,
}

/// The first child that holds `x`.
pub open spec fn first_child_holding(cs: Seq<ChildModel>, x: PaneId) -> int {
    choose|i: int|
        0 <= i < cs.len() && cs[i].node.panes().contains(x) && forall|j: int|
            0 <= j < i ==> !(#[trigger] cs[j].node.panes().contains(x))
}

/// A split of direction `split` moves borders for a resize in `direction`:
/// side by side panes for left and right, stacked panes for up and down.
pub open spec fn split_matches(split: SplitDirection, direction: ResizeDirection) -> bool {
    match direction {
        ResizeDirection::Left | ResizeDirection::Right => split == SplitDirection::Vertical,
        ResizeDirection::Up | ResizeDirection::Down => split == SplitDirection::Horizontal,
    }
}

/// The pair of neighbours whose border moves when child `ci` of `n`
/// children is resized in `direction`, and which of them shrinks and which
/// grows: (left, right, shrinks, grows). Left and up take the border before
/// the child when there is one, else the one after; right and down the
/// other way round.
pub open spec fn resize_pair(ci: int, n: int, direction: ResizeDirection) -> Option<(int, int, int, int)> {
    match direction {
        ResizeDirection::Left | ResizeDirection::Up => if ci > 0 {
            Some((ci - 1, ci, ci - 1, ci))
        } else if ci + 1 < n {
            Some((ci, ci + 1, ci, ci + 1))
        } else {
            None
        },
        ResizeDirection::Right | ResizeDirection::Down => if ci + 1 < n {
            Some((ci, ci + 1, ci + 1, ci))
        } else if ci > 0 {
            Some((ci - 1, ci, ci, ci - 1))
        } else {
            None
        },
    }
}

/// The deepest split on the way from `m` to the focused pane that matches
/// the direction and has a neighbour for the focused child; its path is
/// relative to `m`.
pub open spec fn target_below(m: NodeModel, area: Rect, focused: PaneId, direction: ResizeDirection) -> Option<TargetModel>
    decreases m,
{
    match m {
        NodeModel::Pane(_) => None,
        NodeModel::Split { direction: d, children } => {
            let rects = split_rects_spec(area, d, child_weights(children));
            let ci = first_child_holding(children, focused);
            if 0 <= ci < children.len() && children[ci].node.panes().contains(focused) {
                let deeper = target_below(children[ci].node, rects[ci], focused, direction);
                if deeper is Some {
                    Some(TargetModel { path: seq![ci] + deeper->0.path, ..deeper->0 })
                } else if split_matches(d, direction) && resize_pair(ci, children.len() as int, direction) is Some {
                    Some(TargetModel { path: seq![], child_index: ci, rects })
                } else {
                    None
                }
            } else {
                None
            }
        },
    }
}

/// The extent of `r` along the axis of a resize in `direction`.
pub open spec fn axis_extent(r: Rect, direction: ResizeDirection) -> int {
    match direction {
        ResizeDirection::Left | ResizeDirection::Right => r.width as int,
        ResizeDirection::Up | ResizeDirection::Down => r.height as int,
    }
}

/// The new weights of the children of the target split: their current
/// extents, one cell taken from `shrinks` and given to `grows`, and at
/// least one each.
pub open spec fn resized_weights(rects: Seq<Rect>, direction: ResizeDirection, shrinks: int, grows: int) -> Seq<u16> {
    Seq::new(
        rects.len(),
        |i: int|
            {
                let e = axis_extent(rects[i], direction);
                let e2 = if i == shrinks {
                    e - 1
                } else if i == grows {
                    if e + 1 > 65535 {
                        65535
                    } else {
                        e + 1
                    }
                } else {
                    e
                };
                if e2 >= 1 {
                    e2 as u16
                } else {
                    1u16
                }
            },
    )
}

/// `m` with the children of the split at `path` given the weights `ws`;
/// unchanged where the path leads nowhere or the counts differ.
pub open spec fn with_weights_at(m: NodeModel, path: Seq<int>, ws: Seq<u16>) -> NodeModel
    decreases path.len(),
{
    match m {
        NodeModel::Pane(_) => m,
        NodeModel::Split { direction, children } => if path.len() == 0 {
            if ws.len() == children.len() {
                NodeModel::Split {
                    direction,
                    children: Seq::new(children.len(), |i: int| ChildModel { weight: ws[i], node: children[i].node }),
                }
            } else {
                m
            }
        } else {
            let i = path[0];
            if 0 <= i < children.len() {
                NodeModel::Split {
                    direction,
                    children: children.update(
                        i,
                        ChildModel { weight: children[i].weight, node: with_weights_at(children[i].node, path.drop_first(), ws) },
                    ),
                }
            } else {
                m
            }
        },
    }
}

/// The layout a resize of the focused pane in `direction` would produce,
/// before the minimum sizes are checked; `None` when no border can move.
pub open spec fn resize_candidate(m: NodeModel, area: Rect, focused: PaneId, direction: ResizeDirection) -> Option<NodeModel> {
    match target_below(m, area, focused, direction) {
        None => None,
        Some(t) => match resize_pair(t.child_index, t.rects.len() as int, direction) {
            None => None,
            Some(op) => if axis_extent(t.rects[op.2], direction) <= 1 {
                None
            } else {
                Some(with_weights_at(m, t.path, resized_weights(t.rects, direction, op.2, op.3)))
            },
        },
    }
}

/// Every placement is at least the minimum pane size.
pub open spec fn fits_minimum(ps: Seq<PanePlacement>) -> bool {
    forall|i: int|
        0 <= i < ps.len() ==> (#[trigger] ps[i]).rect.width >= MIN_PANE_WIDTH && ps[i].rect.height
            >= MIN_PANE_HEIGHT
}

/// Children with the same panes, one by one, have the same panes together.
proof fn lemma_models_panes_same_panes(a: Seq<ChildModel>, b: Seq<ChildModel>)
    requires
        a.len() == b.len(),
        forall|i: int| 0 <= i < a.len() ==> #[trigger] a[i].node.panes() == b[i].node.panes(),
    ensures
        models_panes(a) == models_panes(b),
    decreases a.len(),
{
    if a.len() > 0 {
        assert forall|i: int| 0 <= i < a.drop_last().len() implies #[trigger] a.drop_last()[i].node.panes()
            == b.drop_last()[i].node.panes() by {
            assert(a.drop_last()[i] == a[i]);
            assert(b.drop_last()[i] == b[i]);
        }
        lemma_models_panes_same_panes(a.drop_last(), b.drop_last());
        assert(a.last().node.panes() == b.last().node.panes());
    }
}

/// A child that satisfies the first-holder property is the first holder.
proof fn lemma_first_child_holding(cs: Seq<ChildModel>, x: PaneId, i: int)
    requires
        0 <= i < cs.len(),
        cs[i].node.panes().contains(x),
        forall|j: int| 0 <= j < i ==> !(#[trigger] cs[j].node.panes().contains(x)),
    ensures
        first_child_holding(cs, x) == i,
{
    let c = first_child_holding(cs, x);
    if c < i {
        assert(!cs[c].node.panes().contains(x));
    } else if c > i {
        assert(!cs[i].node.panes().contains(x));
    }
}

/// Setting the weights of the target split keeps the layout well formed,
/// keeps its panes and the kind and direction of its root.
proof fn lemma_with_weights(m: NodeModel, area: Rect, focused: PaneId, direction: ResizeDirection, ws: Seq<u16>)
    requires
        m.wf(),
        target_below(m, area, focused, direction) is Some,
        ws.len() == target_below(m, area, focused, direction)->0.rects.len(),
        forall|i: int| 0 <= i < ws.len() ==> #[trigger] ws[i] >= 1,
    ensures
        with_weights_at(m, target_below(m, area, focused, direction)->0.path, ws).wf(),
        with_weights_at(m, target_below(m, area, focused, direction)->0.path, ws).panes() == m.panes(),
        m matches NodeModel::Split { direction: d, .. } ==> with_weights_at(
            m,
            target_below(m, area, focused, direction)->0.path,
            ws,
        ) matches NodeModel::Split { direction: d2, .. } && d2 == d,
        0 <= target_below(m, area, focused, direction)->0.child_index < target_below(m, area, focused, direction)->0.rects.len(),
    decreases m,
{
    match m {
        NodeModel::Pane(_) => {},
        NodeModel::Split { direction: d, children } => {
            let rects = split_rects_spec(area, d, child_weights(children));
            let ci = first_child_holding(children, focused);
            let t = target_below(m, area, focused, direction)->0;
            lemma_split_wf_children(d, children);
            let deeper = target_below(children[ci].node, rects[ci], focused, direction);
            if deeper is Some {
                let child = children[ci];
                assert(child_model_wf(child, d));
                lemma_with_weights(child.node, rects[ci], focused, direction, ws);
                let p = deeper->0.path;
                assert(t.path == seq![ci] + p);
                assert((seq![ci] + p)[0] == ci);
                assert((seq![ci] + p).drop_first() =~= p);
                let nn = with_weights_at(child.node, p, ws);
                let ncs = children.update(ci, ChildModel { weight: child.weight, node: nn });
                assert(with_weights_at(m, t.path, ws) == NodeModel::Split { direction: d, children: ncs });
                assert forall|i: int| 0 <= i < ncs.len() implies #[trigger] child_model_wf(ncs[i], d) by {
                    if i != ci {
                        assert(ncs[i] == children[i]);
                    }
                }
                lemma_split_wf_intro(d, ncs);
                assert forall|i: int| 0 <= i < ncs.len() implies #[trigger] ncs[i].node.panes() == children[i].node.panes() by {
                    if i != ci {
                        assert(ncs[i] == children[i]);
                    }
                }
                lemma_models_panes_same_panes(ncs, children);
            } else {
                assert(t.path == Seq::<int>::empty());
                assert(t.rects == rects);
                assert(rects.len() == children.len());
                let ncs = Seq::new(children.len(), |i: int| ChildModel { weight: ws[i], node: children[i].node });
                assert(with_weights_at(m, t.path, ws) == NodeModel::Split { direction: d, children: ncs });
                assert forall|i: int| 0 <= i < ncs.len() implies #[trigger] child_model_wf(ncs[i], d) by {
                    assert(child_model_wf(children[i], d));
                }
                lemma_split_wf_intro(d, ncs);
                assert forall|i: int| 0 <= i < ncs.len() implies #[trigger] ncs[i].node.panes() == children[i].node.panes() by {
                }
                lemma_models_panes_same_panes(ncs, children);
                assert(resize_pair(ci, children.len() as int, direction) is Some);
            }
        },
    }
}

/// The exec form of a resize target corresponds to the model.
pub open spec fn target_agrees(r: Option<(Vec<usize>, usize, Vec<Rect>)>, t: Option<TargetModel>) -> bool {
    match r {
        None => t is None,
        Some(x) => t is Some && x.0@.len() == t->0.path.len() && (forall|i: int|
            0 <= i < x.0@.len() ==> #[trigger] x.0@[i] as int == t->0.path[i]) && x.1 as int
            == t->0.child_index && x.2@ == t->0.rects,
    }
}

/// Whether a split of direction `split_direction` takes part in a resize in
/// `resize_direction`.
pub fn split_matches_resize_direction(split_direction: SplitDirection, resize_direction: ResizeDirection) -> (r: bool)
    ensures
        r == split_matches(split_direction, resize_direction),
{
    match resize_direction {
        ResizeDirection::Left | ResizeDirection::Right => split_direction == SplitDirection::Vertical,
        ResizeDirection::Up | ResizeDirection::Down => split_direction == SplitDirection::Horizontal,
    }
}

/// The neighbours whose border moves when child `child_index` of
/// `child_count` is resized in `direction`: (left, right, shrinks, grows).
pub fn resolve_resize_operation(child_index: usize, child_count: usize, direction: ResizeDirection) -> (r: Option<(usize, usize, usize, usize)>)
    ensures
        match r {
            None => resize_pair(child_index as int, child_count as int, direction) is None,
            Some(op) => resize_pair(child_index as int, child_count as int, direction) == Some(
                (op.0 as int, op.1 as int, op.2 as int, op.3 as int),
            ),
        },
{
    match direction {
        ResizeDirection::Left | ResizeDirection::Up => {
            if child_index > 0 {
                let left = child_index - 1;
                let right = child_index;
                Some((left, right, left, right))
            } else if child_index < child_count && child_count - child_index > 1 {
                let left = child_index;
                let right = child_index + 1;
                Some((left, right, left, right))
            } else {
                None
            }
        },
        ResizeDirection::Right | ResizeDirection::Down => {
            if child_index < child_count && child_count - child_index > 1 {
                let left = child_index;
                let right = child_index + 1;
                Some((left, right, right, left))
            } else if child_index > 0 {
                let left = child_index - 1;
                let right = child_index;
                Some((left, right, right, left))
            } else {
                None
            }
        },
    }
}

/// The extent of `rect` along the axis of a resize in `direction`.
pub fn resize_axis_extent(rect: Rect, direction: ResizeDirection) -> (r: u16)
    ensures
        r == axis_extent(rect, direction),
{
    match direction {
        ResizeDirection::Left | ResizeDirection::Right => rect.width,
        ResizeDirection::Up | ResizeDirection::Down => rect.height,
    }
}

/// Finds the split a resize of `focused` in `direction` acts on, below
/// `node` laid out over `area`.
#[verifier::loop_isolation(false)]
fn find_resize_target(node: &LayoutNode, area: Rect, focused: PaneId, direction: ResizeDirection) -> (r: Option<(Vec<usize>, usize, Vec<Rect>)>)
    requires
        node@.wf(),
        node@.panes().len() < 65536,
    ensures
        target_agrees(r, target_below(node@, area, focused, direction)),
    decreases node,
{
    match node {
        LayoutNode::Pane(_) => None,
        LayoutNode::Split { direction: split_direction, children } => {
            proof {
                lemma_split_model(*split_direction, *children);
                lemma_child_count_bound(*split_direction, children_model(children@));
                lemma_split_wf_children(*split_direction, children_model(children@));
            }
            let ghost ms = children_model(children@);
            let weights = weights_of(children);
            let rects = split_rects(area, *split_direction, &weights);
            let mut ci: usize = 0;
            while ci < children.len() && !children[ci].node.contains(focused)
                invariant
                    0 <= ci <= children@.len(),
                    ms == children_model(children@),
                    forall|j: int| 0 <= j < ci ==> !(#[trigger] ms[j].node.panes().contains(focused)),
                decreases children@.len() - ci,
            {
                ci = ci + 1;
            }
            if ci == children.len() {
                proof {
                    let c = first_child_holding(ms, focused);
                    if 0 <= c < ms.len() {
                        assert(!ms[c].node.panes().contains(focused));
                    }
                }
                return None;
            }
            proof {
                lemma_first_child_holding(ms, focused, ci as int);
                assert(child_model_wf(ms[ci as int], *split_direction));
            }
            let deeper = find_resize_target(&children[ci].node, rects[ci], focused, direction);
            match deeper {
                Some((path, index, child_rects)) => {
                    let mut path = path;
                    path.insert(0, ci);
                    proof {
                        let t = target_below(ms[ci as int].node, rects@[ci as int], focused, direction)->0;
                        assert forall|i: int| 0 <= i < path@.len() implies #[trigger] path@[i] as int == (seq![ci as int] + t.path)[i] by {
                            if i > 0 {
                                assert(path@[i] as int == t.path[i - 1]);
                            }
                        }
                    }
                    Some((path, index, child_rects))
                },
                None => {
                    let matches = split_matches_resize_direction(*split_direction, direction);
                    let op = resolve_resize_operation(ci, children.len(), direction);
                    if matches && op.is_some() {
                        let path: Vec<usize> = Vec::new();
                        Some((path, ci, rects))
                    } else {
                        None
                    }
                },
            }
        },
    }
}

/// A path of indices as integers.
pub open spec fn ints(p: Seq<usize>) -> Seq<int> {
    p.map_values(|x: usize| x as int)
}

/// Gives the children of the split at `path[depth..]` below `node` the
/// weights `ws`.
#[verifier::loop_isolation(false)]
fn set_weights_at(node: LayoutNode, path: &Vec<usize>, depth: usize, ws: &Vec<u16>) -> (r: LayoutNode)
    requires
        depth <= path@.len(),
    ensures
        r@ == with_weights_at(node@, ints(path@).skip(depth as int), ws@),
    decreases path@.len() - depth,
{
    let ghost q = ints(path@).skip(depth as int);
    match node {
        LayoutNode::Pane(id) => LayoutNode::Pane(id),
        LayoutNode::Split { direction, children } => {
            proof {
                lemma_split_model(direction, children);
            }
            let ghost orig = children@;
            if depth == path.len() {
                proof {
                    assert(q.len() == 0);
                }
                if ws.len() == children.len() {
                    let n = children.len();
                    let mut rest = children;
                    let mut out: Vec<SplitChild> = Vec::new();
                    let mut i: usize = 0;
                    while i < n
                        invariant
                            0 <= i <= n,
                            n == orig.len(),
                            ws@.len() == n,
                            rest@ == orig.skip(i as int),
                            out@.len() == i,
                            forall|j: int| 0 <= j < i ==> #[trigger] child_model(out@[j]) == (ChildModel { weight: ws@[j], node: orig[j].node@ }),
                        decreases n - i,
                    {
                        let c = rest.remove(0);
                        proof {
                            assert(c == orig[i as int]);
                            assert(rest@ =~= orig.skip(i + 1));
                        }
                        out.push(SplitChild { weight: ws[i], node: c.node });
                        i = i + 1;
                    }
                    proof {
                        lemma_split_model(direction, out);
                        let ms = children_model(orig);
                        assert(children_model(out@) =~= Seq::new(ms.len(), |k: int| ChildModel { weight: ws@[k], node: ms[k].node }));
                    }
                    LayoutNode::Split { direction, children: out }
                } else {
                    LayoutNode::Split { direction, children }
                }
            } else {
                let i = path[depth];
                proof {
                    assert(q[0] == i as int);
                    assert(q.drop_first() =~= ints(path@).skip(depth + 1));
                }
                if i < children.len() {
                    let mut children = children;
                    let child = children.remove(i);
                    let node2 = set_weights_at(child.node, path, depth + 1, ws);
                    let replaced = SplitChild { weight: child.weight, node: node2 };
                    children.insert(i, replaced);
                    proof {
                        assert(child == orig[i as int]);
                        assert(children@ =~= orig.update(i as int, replaced));
                        lemma_split_model(direction, children);
                        assert(children_model(children@) =~= children_model(orig).update(
                            i as int,
                            ChildModel { weight: child.weight, node: with_weights_at(child.node@, q.drop_first(), ws@) },
                        ));
                    }
                    LayoutNode::Split { direction, children }
                } else {
                    LayoutNode::Split { direction, children }
                }
            }
        },
    }
}

/// The new weights of the target split's children.
fn resized_weights_of(rects: &Vec<Rect>, direction: ResizeDirection, shrinks: usize, grows: usize) -> (ws: Vec<u16>)
    requires
        shrinks < rects@.len(),
        axis_extent(rects@[shrinks as int], direction) > 1,
    ensures
        ws@ == resized_weights(rects@, direction, shrinks as int, grows as int),
        forall|i: int| 0 <= i < ws@.len() ==> #[trigger] ws@[i] >= 1,
{
    let mut ws: Vec<u16> = Vec::new();
    let mut i: usize = 0;
    while i < rects.len()
        invariant
            0 <= i <= rects@.len(),
            shrinks < rects@.len(),
            axis_extent(rects@[shrinks as int], direction) > 1,
            ws@.len() == i,
            forall|j: int| 0 <= j < i ==> #[trigger] ws@[j] == resized_weights(rects@, direction, shrinks as int, grows as int)[j],
            forall|j: int| 0 <= j < i ==> #[trigger] ws@[j] >= 1,
        decreases rects@.len() - i,
    {
        let e = resize_axis_extent(rects[i], direction);
        let e2 = if i == shrinks {
            e - 1
        } else if i == grows {
            e.saturating_add(1)
        } else {
            e
        };
        ws.push(if e2 >= 1 { e2 } else { 1 });
        i = i + 1;
    }
    proof {
        assert(ws@ =~= resized_weights(rects@, direction, shrinks as int, grows as int));
    }
    ws
}

/// Whether every placement is at least the minimum pane size.
fn all_fit_minimum(ps: &Vec<PanePlacement>) -> (r: bool)
    ensures
        r == fits_minimum(ps@),
{
    let mut i: usize = 0;
    while i < ps.len()
        invariant
            0 <= i <= ps@.len(),
            forall|j: int|
                0 <= j < i ==> (#[trigger] ps@[j]).rect.width >= MIN_PANE_WIDTH && ps@[j].rect.height >= MIN_PANE_HEIGHT,
        decreases ps@.len() - i,
    {
        if ps[i].rect.width < MIN_PANE_WIDTH || ps[i].rect.height < MIN_PANE_HEIGHT {
            return false;
        }
        i = i + 1;
    }
    true
}

impl LayoutTree {
    /// Moves the border of the focused pane by one cell in `direction`, in
    /// the deepest split on its way that can, as laid out over `area`. The
    /// change is kept only when every pane keeps at least the minimum size;
    /// returns whether it was kept. The layout holds fewer than 65536 panes,
    /// as for `placements`.
    pub fn resize_focused(&mut self, direction: ResizeDirection, area: Rect) -> (r: Result<bool, crate::layout::LayoutError>)
        requires
            old(self).wf(),
            old(self).panes().len() < 65536,
        ensures
            final(self).wf(),
            final(self).panes() == old(self).panes(),
            final(self).focused() == old(self).focused(),
            r is Ok,
            r == Ok::<bool, crate::layout::LayoutError>(true) <==> (resize_candidate(old(self).root_model(), area, old(self).focused(), direction) is Some
                && fits_minimum(node_placements(resize_candidate(old(self).root_model(), area, old(self).focused(), direction)->0, area, old(self).focused()))),
            r == Ok::<bool, crate::layout::LayoutError>(true) ==> Some(final(self).root_model()) == resize_candidate(old(self).root_model(), area, old(self).focused(), direction),
            r == Ok::<bool, crate::layout::LayoutError>(false) ==> final(self).root_model() == old(self).root_model(),
    {
        proof {
            self.lemma_fields();
        }
        let focused = self.focused_pane;
        let ghost m = self.root@;
        if !self.root.contains(focused) {
            return Err(crate::layout::LayoutError::PaneNotFound(focused));
        }
        let target = find_resize_target(&self.root, area, focused, direction);
        let (path, child_index, rects) = match target {
            None => {
                return Ok(false);
            },
            Some(t) => t,
        };
        let ghost t = target_below(m, area, focused, direction)->0;
        proof {
            assert(ints(path@) =~= t.path);
            assert(ints(path@).skip(0) =~= t.path);
        }
        let op = resolve_resize_operation(child_index, rects.len(), direction);
        let (shrinks, grows) = match op {
            None => {
                return Ok(false);
            },
            Some((_, _, s, g)) => (s, g),
        };
        proof {
            lemma_with_weights(m, area, focused, direction, resized_weights(t.rects, direction, shrinks as int, grows as int));
        }
        if resize_axis_extent(rects[shrinks], direction) <= 1 {
            return Ok(false);
        }
        let ws = resized_weights_of(&rects, direction, shrinks, grows);
        let candidate = set_weights_at(self.root.clone_node(), &path, 0, &ws);
        let ghost c = candidate@;
        proof {
            assert(resize_candidate(m, area, focused, direction) == Some(c));
        }
        let mut ps: Vec<PanePlacement> = Vec::new();
        candidate.collect_placements(area, focused, &mut ps);
        proof {
            assert(ps@ =~= node_placements(c, area, focused));
        }
        if !all_fit_minimum(&ps) {
            return Ok(false);
        }
        self.root = candidate;
        proof {
            self.lemma_fields();
        }
        Ok(true)
    }
}


/// The weights of the children of `n`, when it is a split.
pub open spec fn split_weights(n: NodeModel) -> Seq<u16> {
    match n {
        NodeModel::Split { children, .. } => children.map_values(|c: ChildModel| c.weight),
        NodeModel::Pane(_) => seq![],
    }
}

/// A resize target is a split reached by its path, with a child for each of
/// its rectangles; its child on the way to the focused pane is one of them
/// and has a neighbour; and giving the split new weights at the path gives
/// it exactly those weights.
proof fn lemma_target_weights(m: NodeModel, area: Rect, focused: PaneId, direction: ResizeDirection, ws: Seq<u16>)
    requires
        target_below(m, area, focused, direction) is Some,
        ws.len() == target_below(m, area, focused, direction)->0.rects.len(),
    ensures
        ({
            let t = target_below(m, area, focused, direction)->0;
            &&& 0 <= t.child_index < t.rects.len()
            &&& resize_pair(t.child_index, t.rects.len() as int, direction) is Some
            &&& split_weights(node_at(with_weights_at(m, t.path, ws), t.path)) == ws
        }),
    decreases m,
{
    match m {
        NodeModel::Pane(_) => {},
        NodeModel::Split { direction: d, children } => {
            let rects = split_rects_spec(area, d, child_weights(children));
            let ci = first_child_holding(children, focused);
            let deeper = target_below(children[ci].node, rects[ci], focused, direction);
            let t = target_below(m, area, focused, direction)->0;
            if deeper is Some {
                lemma_target_weights(children[ci].node, rects[ci], focused, direction, ws);
                let p = deeper->0.path;
                assert(t.path == seq![ci] + p);
                assert(t.path.drop_first() =~= p);
                assert(t.path[0] == ci);
                let inner = with_weights_at(children[ci].node, p, ws);
                let outer = with_weights_at(m, t.path, ws);
                assert(outer == NodeModel::Split {
                    direction: d,
                    children: children.update(ci, ChildModel { weight: children[ci].weight, node: inner }),
                });
                assert(node_at(outer, t.path) == node_at(inner, p));
            } else {
                assert(t.path =~= Seq::<int>::empty());
                assert(rects.len() == children.len());
                let outer = with_weights_at(m, t.path, ws);
                assert(node_at(outer, t.path) == outer);
                assert(split_weights(outer) =~= ws);
            }
        },
    }
}

/// An extent one cell larger, as far as a weight holds.
pub open spec fn one_larger(e: int) -> int {
    if e + 1 > 65535 {
        65535
    } else {
        e + 1
    }
}

/// An extent one cell smaller, kept at least one.
pub open spec fn one_smaller(e: int) -> int {
    if e - 1 >= 1 {
        e - 1
    } else {
        1
    }
}

/// A resize moves one border of the focused pane by one cell, in the split
/// that the resize acts on (the deepest split on the way to the focused pane
/// that lies in the resize's direction and has a neighbour for it): its
/// child on the way to the focused pane grows into the neighbour on the
/// side of the direction when it has one (the next child for right and
/// down, the previous one for left and up), which gives up the cell; with
/// no neighbour on that side, the child gives a cell to its neighbour on
/// the other side. Every other child keeps its extent, and the new weights
/// are the extents the children then have.
pub proof fn law_resize_moves_the_border_of_the_focused_side(
    m: NodeModel,
    area: Rect,
    focused: PaneId,
    direction: ResizeDirection,
)
    requires
        resize_candidate(m, area, focused, direction) is Some,
    ensures
        ({
            let t = target_below(m, area, focused, direction)->0;
            let n = t.rects.len() as int;
            let ci = t.child_index;
            let ws = split_weights(node_at(resize_candidate(m, area, focused, direction)->0, t.path));
            let ext = |i: int| axis_extent(t.rects[i], direction);
            let forward = direction == ResizeDirection::Right || direction == ResizeDirection::Down;
            let grows = if forward {
                if ci + 1 < n { ci } else { ci - 1 }
            } else {
                if ci > 0 { ci } else { ci + 1 }
            };
            let shrinks = if forward {
                if ci + 1 < n { ci + 1 } else { ci }
            } else {
                if ci > 0 { ci - 1 } else { ci }
            };
            &&& 0 <= ci < n
            &&& ws.len() == n
            &&& 0 <= grows < n && 0 <= shrinks < n && grows != shrinks
            &&& (grows == shrinks + 1 || shrinks == grows + 1)
            &&& ws[grows] == one_larger(ext(grows))
            &&& ws[shrinks] == one_smaller(ext(shrinks))
            &&& forall|i: int| 0 <= i < n && i != grows && i != shrinks ==> ws[i] == (if ext(i) >= 1 { ext(i) } else { 1 })
        }),
{
    let t = target_below(m, area, focused, direction)->0;
    let op = resize_pair(t.child_index, t.rects.len() as int, direction)->0;
    let ws = resized_weights(t.rects, direction, op.2, op.3);
    lemma_target_weights(m, area, focused, direction, ws);
    assert(resize_candidate(m, area, focused, direction)->0 == with_weights_at(m, t.path, ws));
}

} // verus!
