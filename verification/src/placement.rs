//! Where the panes of a layout land on the screen.

use vstd::prelude::*;

use crate::base::PaneId;
use crate::base::FocusMoveDirection;
use crate::geometry::{
    bottom_edge, center_gap, fits_coordinates, focus_score, in_direction, is_in_direction, law_split_rects_partition, rect_count,
    rect_holds, right_edge, score, score_less, score_lt, split_rects, split_rects_spec,
};
use crate::layout::{
    child_model_wf, children_model, lemma_models_panes_split_at, lemma_split_model,
    lemma_split_wf_children, lemma_wf_panes_nonempty, models_panes, ChildModel, LayoutNode,
    LayoutTree, NodeModel, Rect, SplitChild, is_first_occurrence,
};

verus! {

broadcast use vstd::std_specs::vec::group_vec_axioms;

/// A pane, the rectangle it occupies and whether it is focused.
#[derive(Debug, Clone, Copy, PartialEq, Eq, Structural)]
pub struct PanePlacement {
    pub pane_id: PaneId,
    pub rect: Rect,
    pub focused: bool,
}

/// The weights of split children.
pub open spec fn child_weights(cs: Seq<ChildModel>) -> Seq<u16> {
    cs.map_values(|c: ChildModel| c.weight)
}

/// The placements of the panes of `m` laid out over `area`, in pane order.
pub open spec fn node_placements(m: NodeModel, area: Rect, focused: PaneId) -> Seq<PanePlacement>
    decreases m, 0nat,
{
    match m {
        NodeModel::Pane(id) => seq![PanePlacement { pane_id: id, rect: area, focused: id == focused }],
        NodeModel::Split { direction, children } => children_placements(
            children,
            split_rects_spec(area, direction, child_weights(children)),
            focused,
        ),
    }
}

/// The placements of the panes of split children, child `i` laid out over
/// `rects[i]`.
pub open spec fn children_placements(cs: Seq<ChildModel>, rects: Seq<Rect>, focused: PaneId) -> Seq<PanePlacement>
    decreases cs, cs.len(),
{
    if cs.len() == 0 {
        seq![]
    } else {
        children_placements(cs.drop_last(), rects, focused) + node_placements(
            cs.last().node,
            rects[cs.len() - 1],
            focused,
        )
    }
}

/// The pane identifiers of a sequence of placements.
pub open spec fn placement_ids(ps: Seq<PanePlacement>) -> Seq<PaneId> {
    ps.map_values(|p: PanePlacement| p.pane_id)
}

proof fn lemma_children_placements_ids(cs: Seq<ChildModel>, rects: Seq<Rect>, focused: PaneId)
    ensures
        placement_ids(children_placements(cs, rects, focused)) == models_panes(cs),
        forall|i: int|
            0 <= i < children_placements(cs, rects, focused).len() ==> (#[trigger] children_placements(
                cs,
                rects,
                focused,
            )[i]).focused == (children_placements(cs, rects, focused)[i].pane_id == focused),
    decreases cs, cs.len(),
{
    if cs.len() > 0 {
        lemma_children_placements_ids(cs.drop_last(), rects, focused);
        lemma_node_placements_ids(cs.last().node, rects[cs.len() - 1], focused);
        let a = children_placements(cs.drop_last(), rects, focused);
        let b = node_placements(cs.last().node, rects[cs.len() - 1], focused);
        assert(placement_ids(a + b) =~= placement_ids(a) + placement_ids(b));
        assert forall|i: int| 0 <= i < (a + b).len() implies (#[trigger] (a + b)[i]).focused == ((a
            + b)[i].pane_id == focused) by {
            if i < a.len() {
                assert((a + b)[i] == a[i]);
            } else {
                assert((a + b)[i] == b[i - a.len()]);
            }
        }
    }
}

proof fn lemma_node_placements_ids(m: NodeModel, area: Rect, focused: PaneId)
    ensures
        placement_ids(node_placements(m, area, focused)) == m.panes(),
        forall|i: int|
            0 <= i < node_placements(m, area, focused).len() ==> (#[trigger] node_placements(
                m,
                area,
                focused,
            )[i]).focused == (node_placements(m, area, focused)[i].pane_id == focused),
    decreases m, 0nat,
{
    match m {
        NodeModel::Pane(id) => {
            assert(placement_ids(node_placements(m, area, focused)) =~= seq![id]);
        },
        NodeModel::Split { direction, children } => {
            lemma_children_placements_ids(
                children,
                split_rects_spec(area, direction, child_weights(children)),
                focused,
            );
        },
    }
}

/// Every pane of a layout gets exactly one placement, in pane order, and a
/// placement is marked focused exactly when its pane is the focused one.
pub proof fn law_placements_follow_panes(m: NodeModel, area: Rect, focused: PaneId)
    ensures
        node_placements(m, area, focused).len() == m.panes().len(),
        forall|i: int|
            0 <= i < m.panes().len() ==> (#[trigger] node_placements(m, area, focused)[i]).pane_id
                == m.panes()[i],
        forall|i: int|
            0 <= i < m.panes().len() ==> (#[trigger] node_placements(m, area, focused)[i]).focused
                == (m.panes()[i] == focused),
{
    lemma_node_placements_ids(m, area, focused);
    let ps = node_placements(m, area, focused);
    assert forall|i: int| 0 <= i < m.panes().len() implies (#[trigger] ps[i]).pane_id == m.panes()[i] by {
        assert(placement_ids(ps)[i] == ps[i].pane_id);
    }
}

/// A well-formed split has no more children than panes, and no child holds
/// more panes than the split.
pub proof fn lemma_child_count_bound(direction: crate::base::SplitDirection, cs: Seq<ChildModel>)
    requires
        (NodeModel::Split { direction, children: cs }).wf(),
    ensures
        cs.len() <= models_panes(cs).len(),
        forall|i: int| 0 <= i < cs.len() ==> (#[trigger] cs[i]).node.panes().len() <= models_panes(cs).len(),
    decreases cs.len(),
{
    lemma_split_wf_children(direction, cs);
    assert forall|i: int| 0 <= i < cs.len() implies (#[trigger] cs[i]).node.panes().len() <= models_panes(
        cs,
    ).len() by {
        lemma_models_panes_split_at(cs, i);
    }
    lemma_models_panes_len_ge(cs, direction);
}

proof fn lemma_models_panes_len_ge(cs: Seq<ChildModel>, direction: crate::base::SplitDirection)
    requires
        forall|i: int| 0 <= i < cs.len() ==> #[trigger] child_model_wf(cs[i], direction),
    ensures
        cs.len() <= models_panes(cs).len(),
    decreases cs.len(),
{
    if cs.len() > 0 {
        assert forall|i: int| 0 <= i < cs.drop_last().len() implies #[trigger] child_model_wf(
            cs.drop_last()[i],
            direction,
        ) by {
            assert(cs.drop_last()[i] == cs[i]);
        }
        lemma_models_panes_len_ge(cs.drop_last(), direction);
        assert(child_model_wf(cs[cs.len() - 1], direction));
        lemma_wf_panes_nonempty(cs.last().node);
    }
}

/// The weights of split children, in order.
pub fn weights_of(children: &Vec<SplitChild>) -> (ws: Vec<u16>)
    ensures
        ws@ == child_weights(children_model(children@)),
{
    let mut ws: Vec<u16> = Vec::new();
    let mut i: usize = 0;
    while i < children.len()
        invariant
            0 <= i <= children.len(),
            ws@.len() == i,
            forall|j: int| 0 <= j < i ==> ws@[j] == #[trigger] children@[j].weight,
        decreases children.len() - i,
    {
        ws.push(children[i].weight);
        i = i + 1;
    }
    proof {
        assert(ws@ =~= child_weights(children_model(children@)));
    }
    ws
}

impl LayoutNode {
    /// Appends the placements of the panes of this node, laid out over
    /// `area`, to `out`.
    #[verifier::loop_isolation(false)]
    pub fn collect_placements(&self, area: Rect, focused_pane: PaneId, out: &mut Vec<PanePlacement>)
        requires
            self@.wf(),
            self@.panes().len() < 65536,
        ensures
            final(out)@ == old(out)@ + node_placements(self@, area, focused_pane),
        decreases self,
    {
        match self {
            LayoutNode::Pane(pane_id) => {
                out.push(PanePlacement { pane_id: *pane_id, rect: area, focused: *pane_id == focused_pane });
            },
            LayoutNode::Split { direction, children } => {
                proof {
                    lemma_split_model(*direction, *children);
                    lemma_child_count_bound(*direction, children_model(children@));
                    lemma_split_wf_children(*direction, children_model(children@));
                }
                let ghost ms = children_model(children@);
                let weights = weights_of(children);
                let rects = split_rects(area, *direction, &weights);
                let ghost start = out@;
                let mut i: usize = 0;
                while i < children.len()
                    invariant
                        0 <= i <= children.len(),
                        ms == children_model(children@),
                        ms.len() == children@.len(),
                        rects@.len() == ms.len(),
                        rects@ == split_rects_spec(area, *direction, child_weights(ms)),
                        out@ == start + children_placements(ms.take(i as int), rects@, focused_pane),
                    decreases children.len() - i,
                {
                    proof {
                        assert(ms.take(i + 1).drop_last() =~= ms.take(i as int));
                        assert(ms.take(i + 1).last() == ms[i as int]);
                        assert(child_model_wf(ms[i as int], *direction));
                    }
                    children[i].node.collect_placements(rects[i], focused_pane, out);
                    proof {
                        assert(out@ =~= start + children_placements(ms.take(i + 1), rects@, focused_pane));
                    }
                    i = i + 1;
                }
                proof {
                    assert(ms.take(i as int) =~= ms);
                }
            },
        }
    }
}

impl LayoutTree {
    /// The placements of the panes of the layout over `area`. The layout
    /// holds fewer than 65536 panes, so that the sum of the weights of a
    /// split stays within a `u32` in every case (a bound a little tighter
    /// than the one the sums themselves need).
    pub fn placements(&self, area: Rect) -> (ps: Vec<PanePlacement>)
        requires
            self.wf(),
            self.panes().len() < 65536,
        ensures
            ps@ == node_placements(self.root_model(), area, self.focused()),
    {
        proof {
            self.lemma_fields();
        }
        let mut ps: Vec<PanePlacement> = Vec::new();
        self.root.collect_placements(area, self.focused_pane, &mut ps);
        proof {
            assert(ps@ =~= node_placements(self.root_model(), area, self.focused()));
        }
        ps
    }
}

/// The area over which focus moves are judged.
pub open spec fn focus_area() -> Rect {
    Rect { x: 0, y: 0, width: 1200, height: 800 }
}

/// Placement `j` is a pane other than `focused` lying in `direction` from
/// `current`.
pub open spec fn is_candidate(
    ps: Seq<PanePlacement>,
    current: Rect,
    focused: PaneId,
    direction: FocusMoveDirection,
    j: int,
) -> bool {
    &&& 0 <= j < ps.len()
    &&& ps[j].pane_id != focused
    &&& in_direction(current, ps[j].rect, direction)
}

/// Placement `k` is the first candidate of smallest score.
pub open spec fn is_best_candidate(
    ps: Seq<PanePlacement>,
    current: Rect,
    focused: PaneId,
    direction: FocusMoveDirection,
    k: int,
) -> bool {
    &&& is_candidate(ps, current, focused, direction, k)
    &&& forall|j: int|
        #![trigger is_candidate(ps, current, focused, direction, j)]
        is_candidate(ps, current, focused, direction, j) ==> !score_lt(
            score(current, ps[j].rect, direction),
            score(current, ps[k].rect, direction),
        )
    &&& forall|j: int|
        #![trigger is_candidate(ps, current, focused, direction, j)]
        0 <= j < k && is_candidate(ps, current, focused, direction, j) ==> score_lt(
            score(current, ps[k].rect, direction),
            score(current, ps[j].rect, direction),
        )
}

/// The pane that focus moves to from the placement `current` in `direction`:
/// the best candidate, or the focused pane itself when there is none.
pub open spec fn focus_target(
    ps: Seq<PanePlacement>,
    current: Rect,
    focused: PaneId,
    direction: FocusMoveDirection,
    target: PaneId,
) -> bool {
    ||| exists|k: int| is_best_candidate(ps, current, focused, direction, k) && ps[k].pane_id == target
    ||| (forall|j: int| !is_candidate(ps, current, focused, direction, j)) && target == focused
}

impl LayoutTree {
    /// Moves the focus to the nearest pane in `direction`, judged on a
    /// 1200 by 800 area; the focus stays where it is when no pane lies that
    /// way. Returns the pane focused afterwards. The layout holds fewer than
    /// 65536 panes, as for `placements`.
    pub fn move_focus(&mut self, direction: FocusMoveDirection) -> (r: Result<PaneId, crate::layout::LayoutError>)
        requires
            old(self).wf(),
            old(self).panes().len() < 65536,
        ensures
            final(self).wf(),
            final(self).root_model() == old(self).root_model(),
            r == Ok::<PaneId, crate::layout::LayoutError>(final(self).focused()),
            forall|c: int|
                is_first_occurrence(old(self).panes(), c, old(self).focused()) ==> focus_target(
                    node_placements(old(self).root_model(), focus_area(), old(self).focused()),
                    node_placements(old(self).root_model(), focus_area(), old(self).focused())[c].rect,
                    old(self).focused(),
                    direction,
                    final(self).focused(),
                ),
    {
        let area = Rect { x: 0, y: 0, width: 1200, height: 800 };
        let ps = self.placements(area);
        let focused = self.focused_pane;
        let ghost m = self.root_model();
        proof {
            self.lemma_fields();
            law_placements_follow_panes(m, area, focused);
        }
        let mut c: usize = 0;
        while c < ps.len() && ps[c].pane_id != focused
            invariant
                0 <= c <= ps@.len(),
                ps@.len() == m.panes().len(),
                forall|i: int| 0 <= i < m.panes().len() ==> (#[trigger] ps@[i]).pane_id == m.panes()[i],
                forall|j: int| 0 <= j < c ==> m.panes()[j] != focused,
                m.panes().contains(focused),
            decreases ps@.len() - c,
        {
            c = c + 1;
        }
        if c == ps.len() {
            proof {
                let t = choose|t: int| 0 <= t < m.panes().len() && m.panes()[t] == focused;
                assert(ps@[t].pane_id == focused);
            }
            return Err(crate::layout::LayoutError::PaneNotFound(focused));
        }
        let current = ps[c].rect;
        proof {
            assert(is_first_occurrence(m.panes(), c as int, focused));
        }
        let mut best: Option<usize> = None;
        let mut best_score: (i32, i32, u16) = (0, 0, 0);
        let mut j: usize = 0;
        while j < ps.len()
            invariant
                0 <= j <= ps@.len(),
                best is None ==> forall|i: int| 0 <= i < j ==> !is_candidate(ps@, current, focused, direction, i),
                best is Some ==> {
                    let k = best->0 as int;
                    &&& k < j
                    &&& is_candidate(ps@, current, focused, direction, k)
                    &&& (best_score.0 as int, best_score.1 as int, best_score.2 as int) == score(current, ps@[k].rect, direction)
                    &&& forall|i: int|
                        #![trigger is_candidate(ps@, current, focused, direction, i)]
                        0 <= i < j && is_candidate(ps@, current, focused, direction, i) ==> !score_lt(
                            score(current, ps@[i].rect, direction),
                            score(current, ps@[k].rect, direction),
                        )
                    &&& forall|i: int|
                        #![trigger is_candidate(ps@, current, focused, direction, i)]
                        0 <= i < k && is_candidate(ps@, current, focused, direction, i) ==> score_lt(
                            score(current, ps@[k].rect, direction),
                            score(current, ps@[i].rect, direction),
                        )
                },
            decreases ps@.len() - j,
        {
            let p = ps[j];
            if p.pane_id != focused && is_in_direction(current, p.rect, direction) {
                let sc = focus_score(current, p.rect, direction);
                let better = match best {
                    None => true,
                    Some(_) => score_less(sc, best_score),
                };
                if better {
                    best = Some(j);
                    best_score = sc;
                }
            }
            j = j + 1;
        }
        match best {
            Some(k) => {
                self.focused_pane = ps[k].pane_id;
                proof {
                    assert(is_best_candidate(ps@, current, focused, direction, k as int));
                    assert(m.panes().contains(ps@[k as int].pane_id));
                }
            },
            None => {},
        }
        proof {
            self.lemma_fields();
            assert forall|cc: int| is_first_occurrence(old(self).panes(), cc, old(self).focused()) implies cc == c by {
                if cc < c {
                } else if cc > c {
                }
            }
        }
        Ok(self.focused_pane)
    }
}

/// One layout operation, by what its contract states of the panes:
/// focusing, moving the focus and resizing keep them; a split inserts a
/// pane not held before right after one; a close removes one.
pub open spec fn layout_pane_step(a: Seq<PaneId>, b: Seq<PaneId>) -> bool {
    ||| b == a
    ||| exists|k: int, new: PaneId| 0 <= k < a.len() && !a.contains(new) && #[trigger] a.insert(k + 1, new) == b
    ||| exists|k: int| 0 <= k < a.len() && #[trigger] a.remove(k) == b
}

/// A step keeps the panes distinct.
proof fn lemma_layout_pane_step_distinct(a: Seq<PaneId>, b: Seq<PaneId>)
    requires
        a.no_duplicates(),
        layout_pane_step(a, b),
    ensures
        b.no_duplicates(),
{
    if b != a {
        if exists|k: int, new: PaneId| 0 <= k < a.len() && !a.contains(new) && #[trigger] a.insert(k + 1, new) == b {
            let (k, new) = choose|k: int, new: PaneId| 0 <= k < a.len() && !a.contains(new) && #[trigger] a.insert(k + 1, new) == b;
            assert forall|i: int, j: int| 0 <= i < b.len() && 0 <= j < b.len() && i != j implies b[i] != b[j] by {
                let ii = if i <= k { i } else { i - 1 };
                let jj = if j <= k { j } else { j - 1 };
                if i != k + 1 && j != k + 1 {
                    assert(b[i] == a[ii] && b[j] == a[jj]);
                } else if i == k + 1 {
                    assert(b[j] == a[jj]);
                } else {
                    assert(b[i] == a[ii]);
                }
            }
        } else {
            let k = choose|k: int| 0 <= k < a.len() && #[trigger] a.remove(k) == b;
            assert forall|i: int, j: int| 0 <= i < b.len() && 0 <= j < b.len() && i != j implies b[i] != b[j] by {
                let ii = if i < k { i } else { i + 1 };
                let jj = if j < k { j } else { j + 1 };
                assert(b[i] == a[ii] && b[j] == a[jj]);
            }
        }
    }
}

/// The panes after the steps up to `i` are distinct.
proof fn lemma_layout_steps_distinct(ps: Seq<Seq<PaneId>>, i: int)
    requires
        0 <= i < ps.len(),
        ps[0].len() == 1,
        forall|k: int| 0 <= k < ps.len() - 1 ==> #[trigger] layout_pane_step(ps[k], ps[k + 1]),
    ensures
        ps[i].no_duplicates(),
    decreases i,
{
    if i > 0 {
        lemma_layout_steps_distinct(ps, i - 1);
        let k = i - 1;
        assert(layout_pane_step(ps[k], ps[k + 1]));
        lemma_layout_pane_step_distinct(ps[i - 1], ps[i]);
    }
}

/// A layout reached from a single pane by splits with identifiers not used
/// before, closes, focus moves and resizes (`ps` being its panes after each
/// operation) holds each pane once, and lays out each of them exactly once,
/// in pane order.
pub proof fn law_reachable_layouts_place_each_pane_once(ps: Seq<Seq<PaneId>>, t: LayoutTree, area: Rect)
    requires
        ps.len() >= 1,
        ps[0].len() == 1,
        forall|k: int| 0 <= k < ps.len() - 1 ==> #[trigger] layout_pane_step(ps[k], ps[k + 1]),
        t.panes() == ps.last(),
    ensures
        t.panes().no_duplicates(),
        placement_ids(node_placements(t.root_model(), area, t.focused())) == t.panes(),
{
    lemma_layout_steps_distinct(ps, ps.len() - 1);
    law_placements_follow_panes(t.root_model(), area, t.focused());
    assert(placement_ids(node_placements(t.root_model(), area, t.focused())) =~= t.panes());
}


/// How many of the placements hold cell (`px`, `py`).
pub open spec fn holders(ps: Seq<PanePlacement>, px: int, py: int) -> int
    decreases ps.len(),
{
    if ps.len() == 0 {
        0
    } else {
        holders(ps.drop_last(), px, py) + if rect_holds(ps.last().rect, px, py) {
            1int
        } else {
            0int
        }
    }
}

proof fn lemma_holders_add(a: Seq<PanePlacement>, b: Seq<PanePlacement>, px: int, py: int)
    ensures
        holders(a + b, px, py) == holders(a, px, py) + holders(b, px, py),
    decreases b.len(),
{
    if b.len() == 0 {
        assert(a + b =~= a);
    } else {
        lemma_holders_add(a, b.drop_last(), px, py);
        assert((a + b).drop_last() =~= a + b.drop_last());
        assert((a + b).last() == b.last());
    }
}

proof fn lemma_children_holders(cs: Seq<ChildModel>, rects: Seq<Rect>, focused: PaneId, px: int, py: int)
    requires
        rects.len() >= cs.len(),
        forall|i: int| 0 <= i < cs.len() ==> (#[trigger] cs[i]).node.wf(),
        forall|i: int| 0 <= i < cs.len() ==> fits_coordinates(#[trigger] rects[i]),
    ensures
        holders(children_placements(cs, rects, focused), px, py) == rect_count(rects, cs.len() as int, px, py),
    decreases cs, cs.len(),
{
    if cs.len() > 0 {
        let n = cs.len() - 1;
        assert(cs.drop_last().len() == n);
        assert forall|i: int| 0 <= i < n implies (#[trigger] cs.drop_last()[i]).node.wf() by {
            assert(cs.drop_last()[i] == cs[i]);
        }
        assert forall|i: int| 0 <= i < n implies fits_coordinates(#[trigger] rects[i]) by {
            assert(fits_coordinates(rects[i]));
        }
        lemma_children_holders(cs.drop_last(), rects, focused, px, py);
        assert(cs[n].node.wf());
        lemma_node_holders(cs.last().node, rects[n], focused, px, py);
        lemma_holders_add(
            children_placements(cs.drop_last(), rects, focused),
            node_placements(cs.last().node, rects[n], focused),
            px,
            py,
        );
    }
}

proof fn lemma_node_holders(m: NodeModel, area: Rect, focused: PaneId, px: int, py: int)
    requires
        m.wf(),
        fits_coordinates(area),
    ensures
        holders(node_placements(m, area, focused), px, py) == if rect_holds(area, px, py) {
            1int
        } else {
            0int
        },
    decreases m, 0nat,
{
    match m {
        NodeModel::Pane(id) => {
            let ps = node_placements(m, area, focused);
            assert(ps.len() == 1);
            assert(ps.drop_last() =~= Seq::<PanePlacement>::empty());
            assert(holders(ps.drop_last(), px, py) == 0);
            assert(ps.last().rect == area);
        },
        NodeModel::Split { direction, children } => {
            lemma_split_wf_children(direction, children);
            let ws = child_weights(children);
            let rects = split_rects_spec(area, direction, ws);
            law_split_rects_partition(area, direction, ws, px, py);
            assert forall|i: int| 0 <= i < children.len() implies (#[trigger] children[i]).node.wf() by {
                assert(child_model_wf(children[i], direction));
            }
            assert forall|i: int| 0 <= i < children.len() implies fits_coordinates(#[trigger] rects[i]) by {
                assert(fits_coordinates(split_rects_spec(area, direction, ws)[i]));
            }
            lemma_children_holders(children, rects, focused, px, py);
        },
    }
}

/// The placements of a layout tile its area: each cell of the area lies in
/// exactly one pane's rectangle, and a cell outside the area in none. (An
/// area reaching past the largest `u16` coordinate is left out: there the
/// rectangles are cut at that coordinate.)
pub proof fn law_placements_tile_area(m: NodeModel, area: Rect, focused: PaneId, px: int, py: int)
    requires
        m.wf(),
        fits_coordinates(area),
    ensures
        holders(node_placements(m, area, focused), px, py) == if rect_holds(area, px, py) {
            1int
        } else {
            0int
        },
{
    lemma_node_holders(m, area, focused, px, py);
}


/// How many cells lie between `current` and `candidate`, a pane on its
/// `direction` side: from the facing edge of the candidate to that of the
/// current pane.
pub open spec fn facing_gap(current: Rect, candidate: Rect, direction: FocusMoveDirection) -> int {
    match direction {
        FocusMoveDirection::Left => current.x - right_edge(candidate),
        FocusMoveDirection::Right => candidate.x - right_edge(current),
        FocusMoveDirection::Up => current.y - bottom_edge(candidate),
        FocusMoveDirection::Down => candidate.y - bottom_edge(current),
    }
}

/// How far apart the centres of `current` and `candidate` are across
/// `direction` (twice the distance, to stay in whole cells).
pub open spec fn across_offset(current: Rect, candidate: Rect, direction: FocusMoveDirection) -> int {
    match direction {
        FocusMoveDirection::Left | FocusMoveDirection::Right => center_gap(
            current.y as int,
            current.height as int,
            candidate.y as int,
            candidate.height as int,
        ),
        FocusMoveDirection::Up | FocusMoveDirection::Down => center_gap(
            current.x as int,
            current.width as int,
            candidate.x as int,
            candidate.width as int,
        ),
    }
}

/// Where `r` starts across `direction`: its row for left and right, its
/// column for up and down.
pub open spec fn across_position(r: Rect, direction: FocusMoveDirection) -> int {
    match direction {
        FocusMoveDirection::Left | FocusMoveDirection::Right => r.y as int,
        FocusMoveDirection::Up | FocusMoveDirection::Down => r.x as int,
    }
}

/// A focus move goes to a nearest pane: when some pane lies in the
/// direction, the pane focused afterwards is one of them, and no pane in
/// that direction lies at a smaller gap from the current one (so a pane
/// right next to it beats any farther one); among panes at the same gap,
/// none is better centred across the direction, and among those equally
/// centred, none starts earlier across it. When none lies that way, the
/// focus stays.
pub proof fn law_focus_moves_to_a_nearest_pane(
    ps: Seq<PanePlacement>,
    current: Rect,
    focused: PaneId,
    direction: FocusMoveDirection,
    target: PaneId,
)
    requires
        focus_target(ps, current, focused, direction, target),
    ensures
        (exists|j: int| is_candidate(ps, current, focused, direction, j)) ==> exists|k: int|
            is_candidate(ps, current, focused, direction, k) && ps[k].pane_id == target && forall|j: int|
                is_candidate(ps, current, focused, direction, j) ==> facing_gap(current, ps[k].rect, direction)
                    <= #[trigger] facing_gap(current, ps[j].rect, direction) && (facing_gap(current, ps[k].rect, direction)
                    == facing_gap(current, ps[j].rect, direction) ==> across_offset(current, ps[k].rect, direction)
                    <= across_offset(current, ps[j].rect, direction)) && (facing_gap(current, ps[k].rect, direction)
                    == facing_gap(current, ps[j].rect, direction) && across_offset(current, ps[k].rect, direction)
                    == across_offset(current, ps[j].rect, direction) ==> across_position(ps[k].rect, direction)
                    <= across_position(ps[j].rect, direction)),
        (forall|j: int| !is_candidate(ps, current, focused, direction, j)) ==> target == focused,
{
    if exists|j: int| is_candidate(ps, current, focused, direction, j) {
        let k = choose|k: int| is_best_candidate(ps, current, focused, direction, k) && ps[k].pane_id == target;
        assert forall|j: int| is_candidate(ps, current, focused, direction, j) implies facing_gap(current, ps[k].rect, direction)
            <= #[trigger] facing_gap(current, ps[j].rect, direction) && (facing_gap(current, ps[k].rect, direction)
            == facing_gap(current, ps[j].rect, direction) ==> across_offset(current, ps[k].rect, direction)
            <= across_offset(current, ps[j].rect, direction)) && (facing_gap(current, ps[k].rect, direction)
            == facing_gap(current, ps[j].rect, direction) && across_offset(current, ps[k].rect, direction)
            == across_offset(current, ps[j].rect, direction) ==> across_position(ps[k].rect, direction)
            <= across_position(ps[j].rect, direction)) by {
            assert(!score_lt(score(current, ps[j].rect, direction), score(current, ps[k].rect, direction)));
        }
    } else {
        if exists|k: int| is_best_candidate(ps, current, focused, direction, k) && ps[k].pane_id == target {
            let k = choose|k: int| is_best_candidate(ps, current, focused, direction, k) && ps[k].pane_id == target;
            assert(is_candidate(ps, current, focused, direction, k));
        }
    }
}

} // verus!
