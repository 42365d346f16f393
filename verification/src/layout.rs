//! The split layout of a tab: a tree of panes, the focused pane, and the
//! operations on it.

use vstd::prelude::*;

use crate::base::{PaneId, SplitDirection};

verus! {

broadcast use vstd::std_specs::vec::group_vec_axioms;

/// Weight a split child gets when nothing else is known.
pub const DEFAULT_CHILD_WEIGHT: u16 = 1;

/// Rectangle on the terminal grid.
#[derive(Debug, Clone, Copy, PartialEq, Eq, Structural)]
pub struct Rect {
    pub x: u16,
    pub y: u16,
    pub width: u16,
    pub height: u16,
}

/// A node of the layout tree.
#[derive(Debug)]
pub enum LayoutNode {
    Pane(PaneId),
    Split { direction: SplitDirection, children: Vec<SplitChild> },
}

/// One child of a split, with the relative share of space it takes.
#[derive(Debug)]
pub struct SplitChild {
    pub weight: u16,
    pub node: LayoutNode,
}

/// Mathematical form of a layout node.
pub enum NodeModel {
    Pane(PaneId),
    Split { direction: SplitDirection, children: Seq<ChildModel> },
}

/// Mathematical form of a split child.
pub struct ChildModel {
    pub weight: u16,
    pub node: NodeModel,
}

pub open spec fn node_model(n: LayoutNode) -> NodeModel
    decreases n,
{
    match n {
        LayoutNode::Pane(id) => NodeModel::Pane(id),
        LayoutNode::Split { direction, children } => NodeModel::Split {
            direction,
            children: Seq::new(
                children@.len(),
                |i: int|
                    if 0 <= i < children@.len() {
                        ChildModel { weight: children@[i].weight, node: node_model(children@[i].node) }
                    } else {
                        ChildModel { weight: 0, node: NodeModel::Pane(PaneId::spec_new(0)) }
                    },
            ),
        },
    }
}


impl View for LayoutNode {
    type V = NodeModel;

    open spec fn view(&self) -> NodeModel {
        node_model(*self)
    }
}

/// The panes of a sequence of split children, in order.
pub open spec fn models_panes(cs: Seq<ChildModel>) -> Seq<PaneId>
    decreases cs, cs.len(),
{
    if cs.len() == 0 {
        seq![]
    } else {
        models_panes(cs.drop_last()) + cs.last().node.panes()
    }
}

/// Whether a split child is well formed inside a split of direction `dir`:
/// it takes a positive share, is well formed itself, and is not a split of
/// the same direction (such a split is flattened into its parent).
pub open spec fn child_model_wf(c: ChildModel, dir: SplitDirection) -> bool {
    &&& c.weight >= 1
    &&& c.node.wf()
    &&& !(c.node matches NodeModel::Split { direction, .. } && direction == dir)
}

/// Every child of the sequence is well formed inside a split of direction `dir`.
pub open spec fn children_models_wf(cs: Seq<ChildModel>, dir: SplitDirection) -> bool
    decreases cs, cs.len(),
{
    if cs.len() == 0 {
        true
    } else {
        &&& children_models_wf(cs.drop_last(), dir)
        &&& cs.last().weight >= 1
        &&& cs.last().node.wf()
        &&& !(cs.last().node matches NodeModel::Split { direction, .. } && direction == dir)
    }
}

impl NodeModel {
    /// The panes of the node, left to right (depth first).
    pub open spec fn panes(self) -> Seq<PaneId>
        decreases self, 0nat,
    {
        match self {
            NodeModel::Pane(id) => seq![id],
            NodeModel::Split { children, .. } => models_panes(children),
        }
    }

    /// Structural well-formedness: every split has at least two children,
    /// each of them well formed, with a positive weight, and not a split of
    /// the same direction as its parent.
    pub open spec fn wf(self) -> bool
        decreases self, 1nat,
    {
        match self {
            NodeModel::Pane(_) => true,
            NodeModel::Split { direction, children } => {
                &&& children.len() >= 2
                &&& children_models_wf(children, direction)
            }
        }
    }

    pub open spec fn is_pane(self) -> bool {
        self is Pane
    }
}

/// Mathematical form of one split child.
pub open spec fn child_model(c: SplitChild) -> ChildModel {
    ChildModel { weight: c.weight, node: c.node@ }
}

/// Mathematical form of a sequence of split children.
pub open spec fn children_model(cs: Seq<SplitChild>) -> Seq<ChildModel> {
    cs.map_values(|c: SplitChild| child_model(c))
}

/// The model of a split is built child by child.
pub proof fn lemma_split_model(direction: SplitDirection, children: Vec<SplitChild>)
    ensures
        (LayoutNode::Split { direction, children })@ == (NodeModel::Split {
            direction,
            children: children_model(children@),
        }),
{
    let n = LayoutNode::Split { direction, children };
    match n@ {
        NodeModel::Split { direction: d, children: ms } => {
            assert(ms =~= children_model(children@));
        },
        _ => {},
    }
}

/// The panes of concatenated children are the concatenated panes.
pub proof fn lemma_models_panes_add(a: Seq<ChildModel>, b: Seq<ChildModel>)
    ensures
        models_panes(a + b) == models_panes(a) + models_panes(b),
    decreases b.len(),
{
    if b.len() == 0 {
        assert(a + b =~= a);
        assert(models_panes(a) + models_panes(b) =~= models_panes(a));
    } else {
        lemma_models_panes_add(a, b.drop_last());
        assert((a + b).drop_last() =~= a + b.drop_last());
        assert((a + b).last() == b.last());
        assert(models_panes(a + b) =~= models_panes(a) + models_panes(b));
    }
}

/// The panes of a single child are the panes of its node.
pub proof fn lemma_models_panes_single(c: ChildModel)
    ensures
        models_panes(seq![c]) == c.node.panes(),
{
    assert(seq![c].drop_last() =~= Seq::<ChildModel>::empty());
    assert(models_panes(Seq::<ChildModel>::empty()) =~= Seq::<PaneId>::empty());
    assert(seq![c].last() == c);
    assert(models_panes(seq![c]) =~= Seq::<PaneId>::empty() + c.node.panes());
    assert(models_panes(seq![c]) =~= c.node.panes());
}

/// The panes of the children, split around the child at `i`.
pub proof fn lemma_models_panes_split_at(cs: Seq<ChildModel>, i: int)
    requires
        0 <= i < cs.len(),
    ensures
        models_panes(cs) == models_panes(cs.take(i)) + cs[i].node.panes() + models_panes(
            cs.skip(i + 1),
        ),
{
    assert(cs =~= cs.take(i) + seq![cs[i]] + cs.skip(i + 1));
    lemma_models_panes_add(cs.take(i) + seq![cs[i]], cs.skip(i + 1));
    lemma_models_panes_add(cs.take(i), seq![cs[i]]);
    lemma_models_panes_single(cs[i]);
}

/// The panes of the first `i + 1` children extend those of the first `i`.
pub proof fn lemma_models_panes_take_succ(cs: Seq<ChildModel>, i: int)
    requires
        0 <= i < cs.len(),
    ensures
        models_panes(cs.take(i + 1)) == models_panes(cs.take(i)) + cs[i].node.panes(),
{
    assert(cs.take(i + 1).drop_last() =~= cs.take(i));
}

/// A pane occurs among the children iff it occurs in one of them.
pub proof fn lemma_models_panes_contains(cs: Seq<ChildModel>, id: PaneId)
    ensures
        models_panes(cs).contains(id) <==> exists|i: int|
            0 <= i < cs.len() && #[trigger] cs[i].node.panes().contains(id),
    decreases cs.len(),
{
    if cs.len() > 0 {
        lemma_models_panes_contains(cs.drop_last(), id);
        let a = models_panes(cs.drop_last());
        let b = cs.last().node.panes();
        if models_panes(cs).contains(id) {
            let k = choose|k: int| 0 <= k < (a + b).len() && (a + b)[k] == id;
            if k < a.len() {
                assert(a[k] == id);
                let j = choose|j: int|
                    0 <= j < cs.drop_last().len() && #[trigger] cs.drop_last()[j].node.panes().contains(id);
                assert(cs[j] == cs.drop_last()[j]);
            } else {
                assert(b[k - a.len()] == id);
                assert(cs[cs.len() - 1].node.panes().contains(id));
            }
        }
        if exists|i: int| 0 <= i < cs.len() && #[trigger] cs[i].node.panes().contains(id) {
            let i = choose|i: int| 0 <= i < cs.len() && #[trigger] cs[i].node.panes().contains(id);
            if i < cs.len() - 1 {
                assert(cs.drop_last()[i] == cs[i]);
                assert(a.contains(id));
                let k = choose|k: int| 0 <= k < a.len() && a[k] == id;
                assert((a + b)[k] == id);
            } else {
                let k = choose|k: int| 0 <= k < b.len() && b[k] == id;
                assert((a + b)[a.len() + k] == id);
            }
        }
    }
}

impl LayoutNode {
    /// Whether the pane occurs in this node.
    #[verifier::loop_isolation(false)]
    pub fn contains(&self, pane_id: PaneId) -> (r: bool)
        ensures
            r == self@.panes().contains(pane_id),
        decreases self,
    {
        match self {
            LayoutNode::Pane(id) => {
                let r = *id == pane_id;
                proof {
                    if r {
                        assert(self@.panes()[0] == pane_id);
                    }
                }
                r
            },
            LayoutNode::Split { direction, children } => {
                proof {
                    lemma_split_model(*direction, *children);
                }
                let ghost ms = children_model(children@);
                let mut i: usize = 0;
                while i < children.len()
                    invariant
                        0 <= i <= children.len(),
                        ms == children_model(children@),
                        ms.len() == children@.len(),
                        forall|j: int| 0 <= j < i ==> !(#[trigger] ms[j].node.panes().contains(pane_id)),
                    decreases children.len() - i,
                {
                    let found = children[i].node.contains(pane_id);
                    if found {
                        proof {
                            assert(ms[i as int].node.panes().contains(pane_id));
                            lemma_models_panes_contains(ms, pane_id);
                        }
                        return true;
                    }
                    i = i + 1;
                }
                proof {
                    lemma_models_panes_contains(ms, pane_id);
                }
                false
            },
        }
    }

    /// Appends the panes of this node, in order, to `out`.
    #[verifier::loop_isolation(false)]
    pub fn collect_panes(&self, out: &mut Vec<PaneId>)
        ensures
            final(out)@ == old(out)@ + self@.panes(),
        decreases self,
    {
        match self {
            LayoutNode::Pane(id) => {
                out.push(*id);
            },
            LayoutNode::Split { direction, children } => {
                proof {
                    lemma_split_model(*direction, *children);
                }
                let ghost ms = children_model(children@);
                let ghost start = out@;
                let mut i: usize = 0;
                while i < children.len()
                    invariant
                        0 <= i <= children.len(),
                        ms == children_model(children@),
                        ms.len() == children@.len(),
                        out@ == start + models_panes(ms.take(i as int)),
                    decreases children.len() - i,
                {
                    proof {
                        lemma_models_panes_take_succ(ms, i as int);
                    }
                    children[i].node.collect_panes(out);
                    proof {
                        assert(out@ =~= start + models_panes(ms.take(i + 1)));
                    }
                    i = i + 1;
                }
                proof {
                    assert(ms.take(i as int) =~= ms);
                }
            },
        }
    }

    /// The first pane of this node, if any.
    #[verifier::loop_isolation(false)]
    pub fn first_pane_id(&self) -> (r: Option<PaneId>)
        ensures
            r == (if self@.panes().len() > 0 {
                Some(self@.panes()[0])
            } else {
                None
            }),
        decreases self,
    {
        match self {
            LayoutNode::Pane(id) => Some(*id),
            LayoutNode::Split { direction, children } => {
                proof {
                    lemma_split_model(*direction, *children);
                }
                let ghost ms = children_model(children@);
                let mut i: usize = 0;
                while i < children.len()
                    invariant
                        0 <= i <= children.len(),
                        ms == children_model(children@),
                        ms.len() == children@.len(),
                        models_panes(ms.take(i as int)).len() == 0,
                    decreases children.len() - i,
                {
                    proof {
                        lemma_models_panes_take_succ(ms, i as int);
                    }
                    let first = children[i].node.first_pane_id();
                    if first.is_some() {
                        proof {
                            lemma_models_panes_add(ms.take(i + 1), ms.skip(i + 1));
                            assert(ms =~= ms.take(i + 1) + ms.skip(i + 1));
                            assert(models_panes(ms.take(i + 1)) =~= ms[i as int].node.panes());
                        }
                        return first;
                    }
                    i = i + 1;
                }
                proof {
                    assert(ms.take(i as int) =~= ms);
                }
                None
            },
        }
    }

    /// A copy of this node.
    #[verifier::loop_isolation(false)]
    pub fn clone_node(&self) -> (r: LayoutNode)
        ensures
            r@ == self@,
        decreases self,
    {
        match self {
            LayoutNode::Pane(id) => LayoutNode::Pane(*id),
            LayoutNode::Split { direction, children } => {
                let mut copied: Vec<SplitChild> = Vec::new();
                let mut i: usize = 0;
                while i < children.len()
                    invariant
                        0 <= i <= children.len(),
                        copied@.len() == i,
                        forall|j: int| 0 <= j < i ==> #[trigger] child_model(copied@[j]) == child_model(children@[j]),
                    decreases children.len() - i,
                {
                    let node = children[i].node.clone_node();
                    copied.push(SplitChild { weight: children[i].weight, node });
                    i = i + 1;
                }
                proof {
                    lemma_split_model(*direction, *children);
                    lemma_split_model(*direction, copied);
                    assert(children_model(copied@) =~= children_model(children@));
                }
                LayoutNode::Split { direction: *direction, children: copied }
            },
        }
    }
}


/// A well-formed split has well-formed children.
pub proof fn lemma_split_wf_children(direction: SplitDirection, cs: Seq<ChildModel>)
    requires
        (NodeModel::Split { direction, children: cs }).wf(),
    ensures
        cs.len() >= 2,
        forall|i: int| 0 <= i < cs.len() ==> #[trigger] child_model_wf(cs[i], direction),
{
    lemma_children_models_wf_iff(cs, direction);
}

/// A split with at least two well-formed children is well formed.
pub proof fn lemma_split_wf_intro(direction: SplitDirection, cs: Seq<ChildModel>)
    requires
        cs.len() >= 2,
        forall|i: int| 0 <= i < cs.len() ==> #[trigger] child_model_wf(cs[i], direction),
    ensures
        (NodeModel::Split { direction, children: cs }).wf(),
{
    lemma_children_models_wf_iff(cs, direction);
}

/// The recursive and the quantified forms of children well-formedness agree.
pub proof fn lemma_children_models_wf_iff(cs: Seq<ChildModel>, dir: SplitDirection)
    ensures
        children_models_wf(cs, dir) <==> forall|i: int|
            0 <= i < cs.len() ==> #[trigger] child_model_wf(cs[i], dir),
    decreases cs.len(),
{
    if cs.len() > 0 {
        lemma_children_models_wf_iff(cs.drop_last(), dir);
        if children_models_wf(cs, dir) {
            assert forall|i: int| 0 <= i < cs.len() implies #[trigger] child_model_wf(cs[i], dir) by {
                if i < cs.len() - 1 {
                    assert(cs.drop_last()[i] == cs[i]);
                }
            }
        }
        if forall|i: int| 0 <= i < cs.len() ==> #[trigger] child_model_wf(cs[i], dir) {
            assert forall|i: int| 0 <= i < cs.drop_last().len() implies #[trigger] child_model_wf(cs.drop_last()[i], dir) by {
                assert(cs.drop_last()[i] == cs[i]);
            }
            assert(child_model_wf(cs[cs.len() - 1], dir));
        }
    }
}

/// `k` is the first position of `x` in `s`.
pub open spec fn is_first_occurrence(s: Seq<PaneId>, k: int, x: PaneId) -> bool {
    &&& 0 <= k < s.len()
    &&& s[k] == x
    &&& forall|j: int| 0 <= j < k ==> s[j] != x
}

/// Inserting inside the middle part of a concatenation.
pub proof fn lemma_insert_in_middle(a: Seq<PaneId>, p: Seq<PaneId>, b: Seq<PaneId>, j: int, x: PaneId)
    requires
        0 <= j <= p.len(),
    ensures
        a + p.insert(j, x) + b == (a + p + b).insert(a.len() + j, x),
{
    assert(a + p.insert(j, x) + b =~= (a + p + b).insert(a.len() + j, x));
}

/// The model of children of which one was replaced by a run of new ones.
pub proof fn lemma_children_model_splice(
    old: Seq<SplitChild>,
    new: Seq<SplitChild>,
    i: int,
    mid: Seq<SplitChild>,
)
    requires
        0 <= i < old.len(),
        new == old.take(i) + mid + old.skip(i + 1),
    ensures
        children_model(new) == children_model(old).take(i) + children_model(mid) + children_model(
            old,
        ).skip(i + 1),
        models_panes(children_model(new)) == models_panes(children_model(old).take(i))
            + models_panes(children_model(mid)) + models_panes(children_model(old).skip(i + 1)),
{
    let m = children_model(old);
    assert(children_model(new) =~= m.take(i) + children_model(mid) + m.skip(i + 1));
    lemma_models_panes_add(m.take(i) + children_model(mid), m.skip(i + 1));
    lemma_models_panes_add(m.take(i), children_model(mid));
}

/// No child before `i` holds `x`, so the panes before child `i` miss `x`.
pub proof fn lemma_models_panes_prefix_misses(cs: Seq<ChildModel>, i: int, x: PaneId)
    requires
        0 <= i <= cs.len(),
        forall|j: int| 0 <= j < i ==> !(#[trigger] cs[j].node.panes().contains(x)),
    ensures
        !models_panes(cs.take(i)).contains(x),
{
    lemma_models_panes_contains(cs.take(i), x);
    if models_panes(cs.take(i)).contains(x) {
        let j = choose|j: int| 0 <= j < cs.take(i).len() && #[trigger] cs.take(i)[j].node.panes().contains(x);
        assert(cs.take(i)[j] == cs[j]);
    }
}

impl SplitChild {
    pub fn new(weight: u16, node: LayoutNode) -> (c: SplitChild)
        ensures
            c.weight == (if weight >= DEFAULT_CHILD_WEIGHT { weight } else { DEFAULT_CHILD_WEIGHT }),
            c.node == node,
    {
        let weight = if weight >= DEFAULT_CHILD_WEIGHT { weight } else { DEFAULT_CHILD_WEIGHT };
        SplitChild { weight, node }
    }

    pub fn pane(pane_id: PaneId) -> (c: SplitChild)
        ensures
            c.weight == DEFAULT_CHILD_WEIGHT,
            c.node == LayoutNode::Pane(pane_id),
    {
        SplitChild::new(DEFAULT_CHILD_WEIGHT, LayoutNode::Pane(pane_id))
    }
}

/// Replacing the child at `index` by the run `mid`, whose panes are those
/// of the old child with `new_pane` inserted after the first occurrence of
/// `pane_id`, keeps the split well formed and inserts `new_pane` after the
/// first occurrence of `pane_id` in the panes of the whole split.
pub proof fn lemma_splice_insert(
    cd: SplitDirection,
    old: Seq<SplitChild>,
    new: Seq<SplitChild>,
    index: int,
    mid: Seq<SplitChild>,
    pane_id: PaneId,
    new_pane: PaneId,
    kk: int,
)
    requires
        (NodeModel::Split { direction: cd, children: children_model(old) }).wf(),
        0 <= index < old.len(),
        new == old.take(index) + mid + old.skip(index + 1),
        mid.len() >= 1,
        forall|j: int| 0 <= j < index ==> !(#[trigger] children_model(old)[j].node.panes().contains(pane_id)),
        is_first_occurrence(children_model(old)[index].node.panes(), kk, pane_id),
        models_panes(children_model(mid)) == children_model(old)[index].node.panes().insert(kk + 1, new_pane),
        forall|j: int| 0 <= j < mid.len() ==> #[trigger] child_model_wf(child_model(mid[j]), cd),
    ensures
        (NodeModel::Split { direction: cd, children: children_model(new) }).wf(),
        exists|k: int|
            is_first_occurrence(models_panes(children_model(old)), k, pane_id) && models_panes(
                children_model(new),
            ) == models_panes(children_model(old)).insert(k + 1, new_pane),
{
    let ms = children_model(old);
    lemma_split_wf_children(cd, ms);
    lemma_children_model_splice(old, new, index, mid);
    lemma_models_panes_split_at(ms, index);
    lemma_models_panes_prefix_misses(ms, index, pane_id);
    let prefix = models_panes(ms.take(index));
    let suffix = models_panes(ms.skip(index + 1));
    let p = ms[index].node.panes();
    lemma_insert_in_middle(prefix, p, suffix, kk + 1, new_pane);
    let k = prefix.len() + kk;
    assert((prefix + p + suffix)[k] == p[kk]);
    assert forall|j: int| 0 <= j < k implies (prefix + p + suffix)[j] != pane_id by {
        if j < prefix.len() {
            assert((prefix + p + suffix)[j] == prefix[j]);
            if prefix[j] == pane_id {
                assert(prefix.contains(pane_id));
            }
        } else {
            assert((prefix + p + suffix)[j] == p[j - prefix.len()]);
        }
    }
    assert(is_first_occurrence(models_panes(ms), k, pane_id));
    let nms = children_model(new);
    assert forall|i: int| 0 <= i < nms.len() implies #[trigger] child_model_wf(nms[i], cd) by {
        if i < index {
            assert(nms[i] == ms[i]);
        } else if i < index + mid.len() {
            assert(nms[i] == child_model(mid[i - index]));
        } else {
            assert(nms[i] == ms[i - mid.len() + 1]);
        }
    }
    lemma_split_wf_intro(cd, nms);
}

/// The panes of two children are the panes of the first, then of the second.
pub proof fn lemma_models_panes_pair(a: ChildModel, b: ChildModel)
    ensures
        models_panes(seq![a, b]) == a.node.panes() + b.node.panes(),
{
    assert(seq![a, b] =~= seq![a] + seq![b]);
    lemma_models_panes_add(seq![a], seq![b]);
    lemma_models_panes_single(a);
    lemma_models_panes_single(b);
}

/// Index of the first child from `i` on that holds `pane`; the number of
/// children when none does.
pub open spec fn first_holding_from(cs: Seq<ChildModel>, pane: PaneId, i: int) -> int
    decreases cs.len() - i,
{
    if i < 0 || i >= cs.len() {
        cs.len() as int
    } else if cs[i].node.panes().contains(pane) {
        i
    } else {
        first_holding_from(cs, pane, i + 1)
    }
}

/// The first child that holds `pane` is at `i`.
pub proof fn lemma_first_holding_at(cs: Seq<ChildModel>, pane: PaneId, i: int, t: int)
    requires
        0 <= t <= i < cs.len(),
        cs[i].node.panes().contains(pane),
        forall|j: int| 0 <= j < i ==> !(#[trigger] cs[j].node.panes().contains(pane)),
    ensures
        first_holding_from(cs, pane, t) == i,
    decreases i - t,
{
    if t < i {
        lemma_first_holding_at(cs, pane, i, t + 1);
    }
}

/// No child from `t` on holds `pane`.
pub proof fn lemma_first_holding_none(cs: Seq<ChildModel>, pane: PaneId, t: int)
    requires
        0 <= t <= cs.len(),
        forall|j: int| t <= j < cs.len() ==> !(#[trigger] cs[j].node.panes().contains(pane)),
    ensures
        first_holding_from(cs, pane, t) == cs.len(),
    decreases cs.len() - t,
{
    if t < cs.len() {
        lemma_first_holding_none(cs, pane, t + 1);
    }
}

/// A split of `direction` of the panes `a` and `b`, with default weights.
pub open spec fn pair_split(direction: SplitDirection, a: PaneId, b: PaneId) -> NodeModel {
    NodeModel::Split {
        direction,
        children: seq![
            ChildModel { weight: DEFAULT_CHILD_WEIGHT, node: NodeModel::Pane(a) },
            ChildModel { weight: DEFAULT_CHILD_WEIGHT, node: NodeModel::Pane(b) },
        ],
    }
}

/// The node after `new_pane` is put beside the first occurrence of `pane`
/// in `direction`. A lone pane becomes a split of the two panes. Inside a
/// split, the first child holding `pane` changes: if it is that pane, then
/// in a split of the same direction `new_pane` becomes its next sibling,
/// both taking the child's weight (at least the default), and otherwise the
/// child becomes a split of the two panes with the child's weight; if it is
/// a split, `new_pane` is put inside it the same way.
pub open spec fn split_model(n: NodeModel, pane: PaneId, direction: SplitDirection, new_pane: PaneId) -> NodeModel
    decreases n,
{
    match n {
        NodeModel::Pane(id) => if id == pane {
            pair_split(direction, id, new_pane)
        } else {
            n
        },
        NodeModel::Split { direction: cd, children: cs } => {
            let k = first_holding_from(cs, pane, 0);
            if 0 <= k < cs.len() {
                let w = if cs[k].weight >= DEFAULT_CHILD_WEIGHT {
                    cs[k].weight
                } else {
                    DEFAULT_CHILD_WEIGHT
                };
                if cs[k].node == NodeModel::Pane(pane) {
                    if cd == direction {
                        NodeModel::Split {
                            direction: cd,
                            children: cs.take(k) + seq![
                                ChildModel { weight: w, node: NodeModel::Pane(pane) },
                                ChildModel { weight: w, node: NodeModel::Pane(new_pane) },
                            ] + cs.skip(k + 1),
                        }
                    } else {
                        NodeModel::Split {
                            direction: cd,
                            children: cs.update(k, ChildModel { weight: w, node: pair_split(direction, pane, new_pane) }),
                        }
                    }
                } else {
                    NodeModel::Split {
                        direction: cd,
                        children: cs.update(
                            k,
                            ChildModel {
                                weight: cs[k].weight,
                                node: split_model(cs[k].node, pane, direction, new_pane),
                            },
                        ),
                    }
                }
            } else {
                n
            }
        },
    }
}

impl LayoutNode {
    /// Replaces the first occurrence of `pane_id` by a split of it and
    /// `new_pane`, in `direction`. Inside a split of the same direction the
    /// new pane becomes a sibling instead. The flag tells whether `pane_id`
    /// occurred.
    #[verifier::loop_isolation(false)]
    pub fn replace_pane_with_split(
        self,
        pane_id: PaneId,
        direction: SplitDirection,
        new_pane: PaneId,
    ) -> (r: (LayoutNode, bool))
        requires
            self@.wf(),
        ensures
            r.1 == self@.panes().contains(pane_id),
            !r.1 ==> r.0@ == self@,
            r.1 ==> r.0@.wf(),
            r.1 ==> exists|k: int|
                is_first_occurrence(self@.panes(), k, pane_id) && r.0@.panes() == self@.panes().insert(
                    k + 1,
                    new_pane,
                ),
            r.1 ==> (self@ matches NodeModel::Split { direction: d, .. } ==> (r.0@ matches NodeModel::Split { direction: d2, .. } && d2 == d)),
            r.1 ==> (self@ is Pane ==> (r.0@ matches NodeModel::Split { direction: d2, .. } && d2 == direction)),
            r.0@ == split_model(self@, pane_id, direction, new_pane),
        decreases self,
    {
        match self {
            LayoutNode::Pane(id) => {
                if id == pane_id {
                    let mut children: Vec<SplitChild> = Vec::new();
                    children.push(SplitChild::pane(id));
                    children.push(SplitChild::pane(new_pane));
                    proof {
                        lemma_split_model(direction, children);
                        let ms = children_model(children@);
                        assert(ms =~= seq![ms[0], ms[1]]);
                        lemma_models_panes_pair(ms[0], ms[1]);
                        assert(ms[0].node.panes() =~= seq![id]);
                        assert(ms[1].node.panes() =~= seq![new_pane]);
                        assert(seq![id].insert(1, new_pane) =~= seq![id] + seq![new_pane]);
                        assert(is_first_occurrence(seq![id], 0, pane_id));
                        assert(forall|i: int| 0 <= i < ms.len() ==> #[trigger] child_model_wf(ms[i], direction));
                        lemma_split_wf_intro(direction, ms);
                    }
                    (LayoutNode::Split { direction, children }, true)
                } else {
                    proof {
                        assert(!self@.panes().contains(pane_id)) by {
                            if self@.panes().contains(pane_id) {
                                assert(self@.panes()[0] == id);
                            }
                        }
                    }
                    (LayoutNode::Pane(id), false)
                }
            },
            LayoutNode::Split { direction: container_direction, children } => {
                let ghost orig = children;
                let ghost ms = children_model(children@);
                proof {
                    lemma_split_model(container_direction, children);
                    lemma_split_wf_children(container_direction, ms);
                }
                let mut children = children;
                let mut index: usize = 0;
                while index < children.len()
                    invariant
                        0 <= index <= children.len(),
                        children == orig,
                        ms == children_model(children@),
                        ms.len() == children@.len(),
                        forall|j: int| 0 <= j < index ==> !(#[trigger] ms[j].node.panes().contains(pane_id)),
                    decreases children.len() - index,
                {
                    if children[index].node.contains(pane_id) {
                        let is_direct = match &children[index].node {
                            LayoutNode::Pane(id) => *id == pane_id,
                            _ => false,
                        };
                        let ghost old_children = children@;
                        let ghost p = ms[index as int].node.panes();
                        proof {
                            lemma_first_holding_at(ms, pane_id, index as int, 0);
                        }
                        if is_direct {
                            proof {
                                assert(p =~= seq![pane_id]);
                                assert(is_first_occurrence(p, 0, pane_id));
                                assert(p.insert(1, new_pane) =~= seq![pane_id] + seq![new_pane]);
                            }
                            let existing = children.remove(index);
                            let weight = if existing.weight >= DEFAULT_CHILD_WEIGHT {
                                existing.weight
                            } else {
                                DEFAULT_CHILD_WEIGHT
                            };
                            if container_direction == direction {
                                let new_child = SplitChild::new(weight, LayoutNode::Pane(new_pane));
                                let old_child = SplitChild::new(weight, existing.node);
                                children.insert(index, new_child);
                                children.insert(index, old_child);
                                proof {
                                    let mid = seq![old_child, new_child];
                                    assert(children@ =~= old_children.take(index as int) + mid + old_children.skip(index + 1));
                                    let mm = children_model(mid);
                                    assert(mm =~= seq![mm[0], mm[1]]);
                                    lemma_models_panes_pair(mm[0], mm[1]);
                                    assert(mm[1].node.panes() =~= seq![new_pane]);
                                    lemma_splice_insert(container_direction, old_children, children@, index as int, mid, pane_id, new_pane, 0);
                                    lemma_split_model(container_direction, children);
                                    assert(old_children == orig@);
                                    assert(self@.panes() == models_panes(children_model(old_children)));
                                    let k = choose|k: int|
                                        is_first_occurrence(models_panes(children_model(old_children)), k, pane_id)
                                            && models_panes(children_model(children@)) == models_panes(children_model(old_children)).insert(k + 1, new_pane);
                                    assert((LayoutNode::Split { direction: container_direction, children })@.panes() == models_panes(children_model(children@)));
                                    assert(is_first_occurrence(self@.panes(), k, pane_id) && (LayoutNode::Split { direction: container_direction, children })@.panes() == self@.panes().insert(k + 1, new_pane));
                                }
                                proof {
                                    assert(ms[index as int].node == NodeModel::Pane(pane_id));
                                    assert(children_model(children@) =~= ms.take(index as int) + seq![
                                        ChildModel { weight, node: NodeModel::Pane(pane_id) },
                                        ChildModel { weight, node: NodeModel::Pane(new_pane) },
                                    ] + ms.skip(index + 1));
                                }
                                return (LayoutNode::Split { direction: container_direction, children }, true);
                            } else {
                                let mut inner: Vec<SplitChild> = Vec::new();
                                inner.push(SplitChild::pane(pane_id));
                                inner.push(SplitChild::pane(new_pane));
                                let nested = SplitChild::new(weight, LayoutNode::Split { direction, children: inner });
                                children.insert(index, nested);
                                proof {
                                    let mid = seq![nested];
                                    assert(children@ =~= old_children.take(index as int) + mid + old_children.skip(index + 1));
                                    let mm = children_model(mid);
                                    lemma_models_panes_single(mm[0]);
                                    lemma_split_model(direction, inner);
                                    let ims = children_model(inner@);
                                    assert(ims =~= seq![ims[0], ims[1]]);
                                    lemma_models_panes_pair(ims[0], ims[1]);
                                    assert(ims[0].node.panes() =~= seq![pane_id]);
                                    assert(ims[1].node.panes() =~= seq![new_pane]);
                                    assert(mm =~= seq![mm[0]]);
                                    assert(mm[0].node == NodeModel::Split { direction, children: ims });
                                    assert(mm[0].node.panes() == models_panes(ims));
                                    assert(models_panes(children_model(mid)) == p.insert(1, new_pane));
                                    assert(forall|i: int| 0 <= i < ims.len() ==> #[trigger] child_model_wf(ims[i], direction));
                                    lemma_split_wf_intro(direction, ims);
                                    assert(child_model_wf(child_model(mid[0]), container_direction));
                                    lemma_splice_insert(container_direction, old_children, children@, index as int, mid, pane_id, new_pane, 0);
                                    lemma_split_model(container_direction, children);
                                    assert(old_children == orig@);
                                    assert(self@.panes() == models_panes(children_model(old_children)));
                                    let k = choose|k: int|
                                        is_first_occurrence(models_panes(children_model(old_children)), k, pane_id)
                                            && models_panes(children_model(children@)) == models_panes(children_model(old_children)).insert(k + 1, new_pane);
                                    assert((LayoutNode::Split { direction: container_direction, children })@.panes() == models_panes(children_model(children@)));
                                    assert(is_first_occurrence(self@.panes(), k, pane_id) && (LayoutNode::Split { direction: container_direction, children })@.panes() == self@.panes().insert(k + 1, new_pane));
                                }
                                proof {
                                    assert(ms[index as int].node == NodeModel::Pane(pane_id));
                                    let ims = children_model(inner@);
                                    assert(ims =~= pair_split(direction, pane_id, new_pane)->children);
                                    assert(children_model(children@) =~= ms.update(
                                        index as int,
                                        ChildModel { weight, node: pair_split(direction, pane_id, new_pane) },
                                    ));
                                }
                                return (LayoutNode::Split { direction: container_direction, children }, true);
                            }
                        }
                        let child = children.remove(index);
                        proof {
                            assert(child == orig@[index as int]);
                            assert(child_model_wf(ms[index as int], container_direction));
                            assert(ms[index as int].node is Split) by {
                                if ms[index as int].node is Pane {
                                    assert(p[0] == pane_id);
                                }
                            }
                        }
                        let (node, done) = child.node.replace_pane_with_split(pane_id, direction, new_pane);
                        let replaced = SplitChild { weight: child.weight, node };
                        children.insert(index, replaced);
                        proof {
                            let mid = seq![replaced];
                            assert(children@ =~= old_children.take(index as int) + mid + old_children.skip(index + 1));
                            let mm = children_model(mid);
                            lemma_models_panes_single(mm[0]);
                            assert(mm =~= seq![mm[0]]);
                            let kk = choose|kk: int| is_first_occurrence(p, kk, pane_id) && node@.panes() == p.insert(kk + 1, new_pane);
                            assert(child_model_wf(child_model(mid[0]), container_direction));
                            lemma_splice_insert(container_direction, old_children, children@, index as int, mid, pane_id, new_pane, kk);
                            lemma_split_model(container_direction, children);
                            assert(old_children == orig@);
                            assert(self@.panes() == models_panes(children_model(old_children)));
                            let k = choose|k: int|
                                is_first_occurrence(models_panes(children_model(old_children)), k, pane_id)
                                    && models_panes(children_model(children@)) == models_panes(children_model(old_children)).insert(k + 1, new_pane);
                            assert((LayoutNode::Split { direction: container_direction, children })@.panes() == models_panes(children_model(children@)));
                            assert(is_first_occurrence(self@.panes(), k, pane_id) && (LayoutNode::Split { direction: container_direction, children })@.panes() == self@.panes().insert(k + 1, new_pane));
                        }
                        proof {
                            assert(ms[index as int].node != NodeModel::Pane(pane_id));
                            assert(children_model(children@) =~= ms.update(
                                index as int,
                                ChildModel {
                                    weight: ms[index as int].weight,
                                    node: split_model(ms[index as int].node, pane_id, direction, new_pane),
                                },
                            ));
                        }
                        return (LayoutNode::Split { direction: container_direction, children }, done);
                    }
                    index = index + 1;
                }
                proof {
                    lemma_models_panes_contains(ms, pane_id);
                    lemma_first_holding_none(ms, pane_id, 0);
                }
                (LayoutNode::Split { direction: container_direction, children }, false)
            },
        }
    }
}

/// Removing inside the middle part of a concatenation.
pub proof fn lemma_remove_in_middle(a: Seq<PaneId>, p: Seq<PaneId>, b: Seq<PaneId>, j: int)
    requires
        0 <= j < p.len(),
    ensures
        a + p.remove(j) + b == (a + p + b).remove(a.len() + j),
        (a + p + b)[a.len() + j] == p[j],
{
    assert(a + p.remove(j) + b =~= (a + p + b).remove(a.len() + j));
}

/// A well-formed node holds at least one pane.
pub proof fn lemma_wf_panes_nonempty(m: NodeModel)
    requires
        m.wf(),
    ensures
        m.panes().len() > 0,
    decreases m,
{
    match m {
        NodeModel::Pane(_) => {},
        NodeModel::Split { direction, children } => {
            lemma_split_wf_children(direction, children);
            lemma_models_panes_split_at(children, 0);
            assert(child_model_wf(children[0], direction));
            lemma_wf_panes_nonempty(children[0].node);
        },
    }
}

/// Panes depend only on the nodes of the children, not on their weights.
pub proof fn lemma_models_panes_same_nodes(a: Seq<ChildModel>, b: Seq<ChildModel>)
    requires
        a.len() == b.len(),
        forall|i: int| 0 <= i < a.len() ==> #[trigger] a[i].node == b[i].node,
    ensures
        models_panes(a) == models_panes(b),
    decreases a.len(),
{
    if a.len() > 0 {
        lemma_models_panes_same_nodes(a.drop_last(), b.drop_last());
    }
}

/// Removing `pane_id` from the child at `index`, which is replaced by the
/// run `mid`, removes it from the panes of the whole split.
pub proof fn lemma_splice_remove(
    cd: SplitDirection,
    old: Seq<SplitChild>,
    new: Seq<SplitChild>,
    index: int,
    mid: Seq<SplitChild>,
    pane_id: PaneId,
    kk: int,
)
    requires
        (NodeModel::Split { direction: cd, children: children_model(old) }).wf(),
        0 <= index < old.len(),
        new == old.take(index) + mid + old.skip(index + 1),
        0 <= kk < children_model(old)[index].node.panes().len(),
        children_model(old)[index].node.panes()[kk] == pane_id,
        models_panes(children_model(mid)) == children_model(old)[index].node.panes().remove(kk),
        forall|j: int| 0 <= j < mid.len() ==> #[trigger] child_model_wf(child_model(mid[j]), cd),
    ensures
        forall|j: int| 0 <= j < new.len() ==> #[trigger] child_model_wf(children_model(new)[j], cd),
        new.len() >= 2 ==> (NodeModel::Split { direction: cd, children: children_model(new) }).wf(),
        exists|k: int|
            0 <= k < models_panes(children_model(old)).len() && models_panes(children_model(old))[k]
                == pane_id && models_panes(children_model(new)) == models_panes(
                children_model(old),
            ).remove(k),
        forall|x: PaneId|
            models_panes(children_model(mid)).contains(x) ==> #[trigger] models_panes(
                children_model(new),
            ).contains(x),
{
    let ms = children_model(old);
    lemma_split_wf_children(cd, ms);
    lemma_children_model_splice(old, new, index, mid);
    lemma_models_panes_split_at(ms, index);
    let prefix = models_panes(ms.take(index));
    let suffix = models_panes(ms.skip(index + 1));
    let p = ms[index].node.panes();
    lemma_remove_in_middle(prefix, p, suffix, kk);
    let k = prefix.len() + kk;
    assert(0 <= k < models_panes(ms).len());
    let nms = children_model(new);
    let mp = models_panes(children_model(mid));
    assert forall|x: PaneId| mp.contains(x) implies #[trigger] models_panes(nms).contains(x) by {
        let t = choose|t: int| 0 <= t < mp.len() && mp[t] == x;
        assert((prefix + mp + suffix)[prefix.len() + t] == x);
    }
    assert forall|i: int| 0 <= i < new.len() implies #[trigger] child_model_wf(children_model(new)[i], cd) by {
        if i < index {
            assert(nms[i] == ms[i]);
        } else if i < index + mid.len() {
            assert(nms[i] == child_model(mid[i - index]));
        } else {
            assert(nms[i] == ms[i - mid.len() + 1]);
        }
    }
    if new.len() >= 2 {
        lemma_split_wf_intro(cd, nms);
    }
}

/// The first pane of the child that takes the place of a removed child:
/// the child now at the removed position, or the last child if the removed
/// one was last.
pub fn sibling_focus_after_removal(children: &Vec<SplitChild>, removed_index: usize) -> (r: Option<PaneId>)
    ensures
        children@.len() == 0 ==> r is None,
        children@.len() > 0 ==> ({
            let p = if removed_index < children@.len() {
                removed_index as int
            } else {
                children@.len() - 1
            };
            let panes = children@[p].node@.panes();
            r == (if panes.len() > 0 {
                Some(panes[0])
            } else {
                None
            })
        }),
{
    if children.len() == 0 {
        return None;
    }
    let last = children.len() - 1;
    let preferred = if removed_index < last {
        removed_index
    } else {
        last
    };
    children[preferred].node.first_pane_id()
}

impl LayoutNode {
    /// Whether this node is the pane `pane_id`.
    pub fn is_pane(&self, pane_id: PaneId) -> (r: bool)
        ensures
            r == (self@ == NodeModel::Pane(pane_id)),
    {
        match self {
            LayoutNode::Pane(id) => *id == pane_id,
            LayoutNode::Split { direction, children } => {
                proof {
                    lemma_split_model(*direction, *children);
                }
                false
            },
        }
    }

    /// Closes `pane_id` inside this split. The split loses the child that is
    /// the pane (or the pane is closed inside the child that holds it); a
    /// split left with one child is replaced by that child, and a child
    /// split of the same direction is merged into this one. The new focus is
    /// the first pane of the sibling that takes the closed pane's place.
    #[verifier::loop_isolation(false)]
    pub fn close_pane(self, pane_id: PaneId) -> (r: (LayoutNode, Option<PaneId>))
        requires
            self@.wf(),
        ensures
            r.1 is None ==> r.0@ == self@,
            self@ is Pane ==> r.1 is None,
            self@ is Split ==> (r.1 is Some <==> self@.panes().contains(pane_id)),
            r.1 is Some ==> r.0@.wf(),
            r.1 is Some ==> r.0@.panes().contains(r.1->0),
            r.1 is Some ==> exists|k: int|
                0 <= k < self@.panes().len() && self@.panes()[k] == pane_id && r.0@.panes()
                    == self@.panes().remove(k),
            r.0@ == closed_model(self@, pane_id).0,
            r.1 == closed_model(self@, pane_id).1,
        decreases self,
    {
        match self {
            LayoutNode::Pane(id) => (LayoutNode::Pane(id), None),
            LayoutNode::Split { direction, children } => {
                let ghost orig = children;
                let ghost ms = children_model(children@);
                proof {
                    lemma_split_model(direction, children);
                    lemma_split_wf_children(direction, ms);
                }
                let mut children = children;
                let mut index: usize = 0;
                while index < children.len()
                    invariant
                        0 <= index <= children.len(),
                        children == orig,
                        ms == children_model(children@),
                        ms.len() == children@.len(),
                        forall|j: int| 0 <= j < index ==> ms[j].node != NodeModel::Pane(pane_id),
                    decreases children.len() - index,
                {
                    if children[index].node.is_pane(pane_id) {
                        let ghost old_children = children@;
                        let _removed = children.remove(index);
                        let focus = sibling_focus_after_removal(&children, index);
                        proof {
                            let mid = Seq::<SplitChild>::empty();
                            assert(children@ =~= old_children.take(index as int) + mid + old_children.skip(index + 1));
                            assert(ms[index as int].node.panes() =~= seq![pane_id]);
                            assert(models_panes(children_model(mid)) =~= Seq::<PaneId>::empty());
                            assert(seq![pane_id].remove(0) =~= Seq::<PaneId>::empty());
                            lemma_splice_remove(direction, old_children, children@, index as int, mid, pane_id, 0);
                            let p = if (index as int) < children@.len() { index as int } else { children@.len() - 1 };
                            assert(child_model_wf(children_model(children@)[p], direction));
                            lemma_wf_panes_nonempty(children@[p].node@);
                            let nms = children_model(children@);
                            lemma_models_panes_split_at(nms, p);
                            assert(nms[p].node == children@[p].node@);
                            let q = models_panes(nms.take(p));
                            let pp = nms[p].node.panes();
                            assert((q + pp + models_panes(nms.skip(p + 1)))[q.len() as int] == pp[0]);
                        }
                        let new_focus = focus.unwrap();
                        proof {
                            lemma_first_pane_child_at(ms, pane_id, index as int, 0);
                            assert(children_model(children@) =~= ms.remove(index as int));
                        }
                        let node = collapse_split(direction, children, new_focus);
                        return (node, Some(new_focus));
                    }
                    index = index + 1;
                }
                let mut child_index: usize = 0;
                while child_index < children.len()
                    invariant
                        0 <= child_index <= children.len(),
                        children == orig,
                        ms == children_model(children@),
                        ms.len() == children@.len(),
                        forall|j: int| 0 <= j < ms.len() ==> ms[j].node != NodeModel::Pane(pane_id),
                        forall|j: int| 0 <= j < child_index ==> !(#[trigger] ms[j].node.panes().contains(pane_id)),
                    decreases children.len() - child_index,
                {
                    if children[child_index].node.contains(pane_id) {
                        let ghost old_children = children@;
                        let child = children.remove(child_index);
                        proof {
                            assert(child == orig@[child_index as int]);
                            assert(child_model_wf(ms[child_index as int], direction));
                            assert(ms[child_index as int].node is Split) by {
                                if ms[child_index as int].node is Pane {
                                    assert(ms[child_index as int].node.panes()[0] == pane_id);
                                }
                            }
                        }
                        let ghost child_model_old = child.node@;
                        let (replacement, focus) = child.node.close_pane(pane_id);
                        let new_focus = focus.unwrap();
                        let ghost kk = choose|kk: int|
                            0 <= kk < child_model_old.panes().len() && child_model_old.panes()[kk] == pane_id
                                && replacement@.panes() == child_model_old.panes().remove(kk);
                        let ghost rest = children@;
                        let children = splice_replacement(direction, children, child_index, child.weight, replacement);
                        proof {
                            let mid = choose|mid: Seq<SplitChild>|
                                #![trigger children_model(mid)]
                                children@ == rest.take(child_index as int) + mid + rest.skip(child_index as int)
                                    && models_panes(children_model(mid)) == replacement@.panes()
                                    && forall|j: int| 0 <= j < mid.len() ==> #[trigger] child_model_wf(child_model(mid[j]), direction);
                            assert(children@ =~= old_children.take(child_index as int) + mid + old_children.skip(child_index + 1));
                            lemma_splice_remove(direction, old_children, children@, child_index as int, mid, pane_id, kk);
                            assert(models_panes(children_model(children@)).contains(new_focus));
                            lemma_first_pane_child_none(ms, pane_id, 0);
                            lemma_first_holding_at(ms, pane_id, child_index as int, 0);
                            assert(children_model(rest) =~= ms.remove(child_index as int));
                        }
                        let node = collapse_split(direction, children, new_focus);
                        return (node, Some(new_focus));
                    }
                    child_index = child_index + 1;
                }
                proof {
                    lemma_models_panes_contains(ms, pane_id);
                    lemma_first_pane_child_none(ms, pane_id, 0);
                    lemma_first_holding_none(ms, pane_id, 0);
                }
                (LayoutNode::Split { direction, children }, None)
            },
        }
    }
}

/// Index of the first child from `i` on that is the pane `pane`; the number
/// of children when none is.
pub open spec fn first_pane_child_from(cs: Seq<ChildModel>, pane: PaneId, i: int) -> int
    decreases cs.len() - i,
{
    if i < 0 || i >= cs.len() {
        cs.len() as int
    } else if cs[i].node == NodeModel::Pane(pane) {
        i
    } else {
        first_pane_child_from(cs, pane, i + 1)
    }
}

/// The first child that is the pane `pane` is at `i`.
pub proof fn lemma_first_pane_child_at(cs: Seq<ChildModel>, pane: PaneId, i: int, t: int)
    requires
        0 <= t <= i < cs.len(),
        cs[i].node == NodeModel::Pane(pane),
        forall|j: int| 0 <= j < i ==> cs[j].node != NodeModel::Pane(pane),
    ensures
        first_pane_child_from(cs, pane, t) == i,
    decreases i - t,
{
    if t < i {
        lemma_first_pane_child_at(cs, pane, i, t + 1);
    }
}

/// No child from `t` on is the pane `pane`.
pub proof fn lemma_first_pane_child_none(cs: Seq<ChildModel>, pane: PaneId, t: int)
    requires
        0 <= t <= cs.len(),
        forall|j: int| 0 <= j < cs.len() ==> cs[j].node != NodeModel::Pane(pane),
    ensures
        first_pane_child_from(cs, pane, t) == cs.len(),
    decreases cs.len() - t,
{
    if t < cs.len() {
        lemma_first_pane_child_none(cs, pane, t + 1);
    }
}

/// The node of a split of `direction` with children `cs`: the only child's
/// node when one is left.
pub open spec fn collapsed(direction: SplitDirection, cs: Seq<ChildModel>) -> NodeModel {
    if cs.len() == 1 {
        cs[0].node
    } else {
        NodeModel::Split { direction, children: cs }
    }
}

/// A grandchild moved into its grandparent, with the larger of its own and
/// its former parent's weight.
pub open spec fn merged_model(c: ChildModel, inherited: u16) -> ChildModel {
    let w = if c.weight > inherited { c.weight } else { inherited };
    ChildModel { weight: if w >= 1 { w } else { 1 }, node: c.node }
}

/// The children that take the place of a child of weight `w` inside a split
/// of `direction` once `rep` replaces its node: the children of `rep` when it
/// is a split of the same direction, merged, else `rep` with weight `w`.
pub open spec fn replacement_children(direction: SplitDirection, w: u16, rep: NodeModel) -> Seq<ChildModel> {
    match rep {
        NodeModel::Split { direction: d, children: g } => if d == direction {
            g.map_values(|c: ChildModel| merged_model(c, w))
        } else {
            seq![ChildModel { weight: w, node: rep }]
        },
        NodeModel::Pane(_) => seq![ChildModel { weight: w, node: rep }],
    }
}

/// The node after `pane` is closed in `n`, and the pane then focused. In a
/// split, a child that is the pane is removed, and the first pane of the
/// sibling at its place (the last sibling, if it was last) is focused;
/// else the first child holding the pane has it closed inside, and its
/// replacement takes its place. A split left with one child becomes that
/// child. A lone pane, or a node without `pane`, is left as it is.
pub open spec fn closed_model(n: NodeModel, pane: PaneId) -> (NodeModel, Option<PaneId>)
    decreases n,
{
    match n {
        NodeModel::Pane(_) => (n, None),
        NodeModel::Split { direction, children } => {
            let j = first_pane_child_from(children, pane, 0);
            if 0 <= j < children.len() {
                let rest = children.remove(j);
                let p = if j < rest.len() { j } else { rest.len() - 1 };
                (collapsed(direction, rest), Some(rest[p].node.panes()[0]))
            } else {
                let k = first_holding_from(children, pane, 0);
                if 0 <= k < children.len() {
                    let inner = closed_model(children[k].node, pane);
                    let rest = children.remove(k);
                    (
                        collapsed(
                            direction,
                            rest.take(k) + replacement_children(direction, children[k].weight, inner.0) + rest.skip(k),
                        ),
                        inner.1,
                    )
                } else {
                    (n, None)
                }
            }
        },
    }
}

/// The first child from `t` on that holds `pane` holds it, and no child
/// between `t` and it does.
pub proof fn lemma_first_holding_props(cs: Seq<ChildModel>, pane: PaneId, t: int)
    requires
        0 <= t <= cs.len(),
    ensures
        t <= first_holding_from(cs, pane, t) <= cs.len(),
        first_holding_from(cs, pane, t) < cs.len() ==> cs[first_holding_from(cs, pane, t)].node.panes().contains(pane),
        forall|j: int| t <= j < first_holding_from(cs, pane, t) ==> !(#[trigger] cs[j].node.panes().contains(pane)),
    decreases cs.len() - t,
{
    if t < cs.len() && !cs[t].node.panes().contains(pane) {
        lemma_first_holding_props(cs, pane, t + 1);
    }
}

/// After a split beside a pane the node holds, it is a split that holds the
/// new pane.
pub proof fn lemma_split_model_holds_new(m: NodeModel, pane: PaneId, d: SplitDirection, new_pane: PaneId)
    requires
        m.wf(),
        m.panes().contains(pane),
    ensures
        split_model(m, pane, d, new_pane) is Split,
        split_model(m, pane, d, new_pane).panes().contains(new_pane),
    decreases m,
{
    match m {
        NodeModel::Pane(id) => {
            assert(m.panes()[0] == pane);
            let cs = pair_split(d, id, new_pane)->children;
            assert(cs =~= seq![cs[0], cs[1]]);
            lemma_models_panes_pair(cs[0], cs[1]);
            assert(cs[1].node.panes() =~= seq![new_pane]);
            assert((cs[0].node.panes() + cs[1].node.panes())[1] == new_pane);
        },
        NodeModel::Split { direction: cd, children: cs } => {
            lemma_split_wf_children(cd, cs);
            lemma_models_panes_contains(cs, pane);
            lemma_first_holding_props(cs, pane, 0);
            let k = first_holding_from(cs, pane, 0);
            assert(k < cs.len());
            let s2 = split_model(m, pane, d, new_pane);
            let cs2 = s2->children;
            let w = if cs[k].weight >= DEFAULT_CHILD_WEIGHT { cs[k].weight } else { DEFAULT_CHILD_WEIGHT };
            if cs[k].node == NodeModel::Pane(pane) {
                if cd == d {
                    assert(cs2[k + 1] == ChildModel { weight: w, node: NodeModel::Pane(new_pane) });
                    lemma_pane_child_holds(cs2[k + 1], new_pane);
                    lemma_models_panes_contains(cs2, new_pane);
                } else {
                    let pc = pair_split(d, pane, new_pane)->children;
                    assert(pc =~= seq![pc[0], pc[1]]);
                    lemma_models_panes_pair(pc[0], pc[1]);
                    assert(pc[1].node.panes() =~= seq![new_pane]);
                    assert((pc[0].node.panes() + pc[1].node.panes())[1] == new_pane);
                    assert(cs2[k].node.panes().contains(new_pane));
                    lemma_models_panes_contains(cs2, new_pane);
                }
            } else {
                assert(child_model_wf(cs[k], cd));
                lemma_split_model_holds_new(cs[k].node, pane, d, new_pane);
                assert(cs2[k].node.panes().contains(new_pane));
                lemma_models_panes_contains(cs2, new_pane);
            }
        },
    }
}

/// A child that is the pane `x` holds `x`.
proof fn lemma_pane_child_holds(c: ChildModel, x: PaneId)
    requires
        c.node == NodeModel::Pane(x),
    ensures
        c.node.panes().contains(x),
{
    assert(c.node.panes()[0] == x);
}

/// The node reached from `m` by following `path`, one child index per step;
/// the walk stops where the path leads nowhere.
pub open spec fn node_at(m: NodeModel, path: Seq<int>) -> NodeModel
    decreases path.len(),
{
    if path.len() == 0 {
        m
    } else {
        match m {
            NodeModel::Pane(_) => m,
            NodeModel::Split { children, .. } => if 0 <= path[0] < children.len() {
                node_at(children[path[0]].node, path.drop_first())
            } else {
                m
            },
        }
    }
}

/// `n` is a split in which pane `b` is the child right after pane `a`, and
/// the two have the same weight, so they share the split's extent equally.
pub open spec fn even_neighbours(n: NodeModel, a: PaneId, b: PaneId) -> bool {
    n matches NodeModel::Split { children, .. } && exists|j: int|
        0 <= j && j + 1 < children.len() && children[j].node == NodeModel::Pane(a)
            && children[j + 1].node == NodeModel::Pane(b) && #[trigger] children[j].weight == children[j + 1].weight
}

/// Splitting a pane puts the new pane right after it, in a split where the
/// two have the same weight: a pane inside a split of the same direction
/// keeps its weight and the new pane gets that weight too, so the two share
/// the pane's former extent equally; otherwise the pane becomes a split of
/// the two with equal weights.
pub proof fn law_split_pane_shares_evenly(m: NodeModel, pane: PaneId, d: SplitDirection, new_pane: PaneId)
    requires
        m.wf(),
        m.panes().contains(pane),
    ensures
        exists|path: Seq<int>| #[trigger] even_neighbours(node_at(split_model(m, pane, d, new_pane), path), pane, new_pane),
    decreases m,
{
    match m {
        NodeModel::Pane(id) => {
            assert(m.panes()[0] == pane);
            let r = split_model(m, pane, d, new_pane);
            let path = Seq::<int>::empty();
            assert(node_at(r, path) == r);
            let cs = r->children;
            assert(cs[0].node == NodeModel::Pane(pane) && cs[1].node == NodeModel::Pane(new_pane) && cs[0].weight == cs[1].weight);
            assert(even_neighbours(node_at(r, path), pane, new_pane));
        },
        NodeModel::Split { direction: cd, children: cs } => {
            lemma_split_wf_children(cd, cs);
            lemma_models_panes_contains(cs, pane);
            lemma_first_holding_props(cs, pane, 0);
            let k = first_holding_from(cs, pane, 0);
            assert(k < cs.len());
            assert(child_model_wf(cs[k], cd));
            let r = split_model(m, pane, d, new_pane);
            let cs2 = r->children;
            if cs[k].node == NodeModel::Pane(pane) {
                if cd == d {
                    let path = Seq::<int>::empty();
                    assert(node_at(r, path) == r);
                    assert(cs2[k].node == NodeModel::Pane(pane) && cs2[k + 1].node == NodeModel::Pane(new_pane)
                        && cs2[k].weight == cs2[k + 1].weight);
                    assert(even_neighbours(node_at(r, path), pane, new_pane));
                } else {
                    let path = seq![k];
                    let p = pair_split(d, pane, new_pane);
                    assert(cs2[k].node == p);
                    assert(path.drop_first() =~= Seq::<int>::empty());
                    assert(node_at(r, path) == node_at(p, path.drop_first()));
                    assert(p->children[0].weight == p->children[1].weight);
                    assert(even_neighbours(node_at(r, path), pane, new_pane));
                }
            } else {
                law_split_pane_shares_evenly(cs[k].node, pane, d, new_pane);
                let inner = split_model(cs[k].node, pane, d, new_pane);
                let p = choose|p: Seq<int>| #[trigger] even_neighbours(node_at(inner, p), pane, new_pane);
                let path = seq![k] + p;
                assert(path.drop_first() =~= p);
                assert(cs2[k].node == inner);
                assert(node_at(r, path) == node_at(inner, p));
                assert(even_neighbours(node_at(r, path), pane, new_pane));
            }
        },
    }
}

/// `path` leads from `m` through splits, each step a child index of the
/// split reached.
pub open spec fn valid_path(m: NodeModel, path: Seq<int>) -> bool
    decreases path.len(),
{
    path.len() == 0 || (m matches NodeModel::Split { children, .. } && 0 <= path[0] < children.len()
        && valid_path(children[path[0]].node, path.drop_first()))
}

/// With no pane twice among the children, the pane of a child is in no
/// other child, and each child's panes are distinct.
proof fn lemma_unique_holder(cs: Seq<ChildModel>, x: PaneId, i: int)
    requires
        models_panes(cs).no_duplicates(),
        0 <= i < cs.len(),
        cs[i].node.panes().contains(x),
    ensures
        forall|j: int| 0 <= j < cs.len() && j != i ==> !(#[trigger] cs[j].node.panes().contains(x)),
        cs[i].node.panes().no_duplicates(),
{
    lemma_models_panes_split_at(cs, i);
    let a = models_panes(cs.take(i));
    let p = cs[i].node.panes();
    let b = models_panes(cs.skip(i + 1));
    let all = a + p + b;
    let q = choose|q: int| 0 <= q < p.len() && p[q] == x;
    assert(all[a.len() + q] == x);
    assert forall|j: int| 0 <= j < cs.len() && j != i implies !(#[trigger] cs[j].node.panes().contains(x)) by {
        if cs[j].node.panes().contains(x) {
            if j < i {
                assert(cs.take(i)[j] == cs[j]);
                lemma_models_panes_contains(cs.take(i), x);
                let r = choose|r: int| 0 <= r < a.len() && a[r] == x;
                assert(all[r] == x);
            } else {
                assert(cs.skip(i + 1)[j - i - 1] == cs[j]);
                lemma_models_panes_contains(cs.skip(i + 1), x);
                let r = choose|r: int| 0 <= r < b.len() && b[r] == x;
                assert(all[a.len() + p.len() + r] == x);
            }
        }
    }
    assert forall|u: int, v: int| 0 <= u < p.len() && 0 <= v < p.len() && u != v implies p[u] != p[v] by {
        assert(all[a.len() + u] == p[u]);
        assert(all[a.len() + v] == p[v]);
    }
}

/// A split reached by a valid path with the pane `x` as a child lies in a
/// node that holds `x`.
proof fn lemma_path_holds(m: NodeModel, path: Seq<int>, x: PaneId, j: int)
    requires
        valid_path(m, path),
        node_at(m, path) matches NodeModel::Split { children, .. } && 0 <= j < children.len()
            && children[j].node == NodeModel::Pane(x),
    ensures
        m.panes().contains(x),
    decreases path.len(),
{
    let cs = m->children;
    if path.len() == 0 {
        assert(node_at(m, path) == m);
        assert(cs[j].node.panes()[0] == x);
        assert(cs[j].node.panes().contains(x));
        lemma_models_panes_contains(cs, x);
    } else {
        let k = path[0];
        assert(node_at(m, path) == node_at(cs[k].node, path.drop_first()));
        lemma_path_holds(cs[k].node, path.drop_first(), x, j);
        assert(cs[k].node.panes().contains(x));
        lemma_models_panes_contains(cs, x);
    }
}

/// Splitting a pane that sits in a split of the same direction leaves every
/// other child of that split as it was, keeps the pane's weight, and gives
/// the new pane, right after it, that same weight: the two share the pane's
/// former extent equally, and the other panes keep their shares relative to
/// it. (Stated of a layout in which no pane occurs twice.)
pub proof fn law_split_keeps_the_weight_of_the_pane(
    m: NodeModel,
    pane: PaneId,
    d: SplitDirection,
    new_pane: PaneId,
    path: Seq<int>,
    j: int,
)
    requires
        m.wf(),
        m.panes().no_duplicates(),
        valid_path(m, path),
        node_at(m, path) matches NodeModel::Split { direction, children } && direction == d && 0 <= j < children.len()
            && children[j].node == NodeModel::Pane(pane),
    ensures
        ({
            let cs = node_at(m, path)->children;
            node_at(split_model(m, pane, d, new_pane), path) == NodeModel::Split {
                direction: d,
                children: cs.take(j) + seq![cs[j], ChildModel { weight: cs[j].weight, node: NodeModel::Pane(new_pane) }]
                    + cs.skip(j + 1),
            }
        }),
    decreases path.len(),
{
    let cs = m->children;
    let cd = m->direction;
    lemma_split_wf_children(cd, cs);
    if path.len() == 0 {
        assert(cs[j].node.panes()[0] == pane);
        lemma_unique_holder(cs, pane, j);
        lemma_first_holding_at(cs, pane, j, 0);
        assert(child_model_wf(cs[j], cd));
        let r = split_model(m, pane, d, new_pane);
        assert(r->children =~= cs.take(j) + seq![cs[j], ChildModel { weight: cs[j].weight, node: NodeModel::Pane(new_pane) }]
            + cs.skip(j + 1));
    } else {
        let k = path[0];
        let rest = path.drop_first();
        lemma_path_holds(cs[k].node, rest, pane, j);
        lemma_unique_holder(cs, pane, k);
        lemma_first_holding_at(cs, pane, k, 0);
        assert(child_model_wf(cs[k], cd));
        assert(cs[k].node is Split) by {
            if rest.len() > 0 {
            } else {
                assert(node_at(cs[k].node, rest) == cs[k].node);
            }
        }
        lemma_split_model_panes_unique_child(cs, k);
        law_split_keeps_the_weight_of_the_pane(cs[k].node, pane, d, new_pane, rest, j);
        let r = split_model(m, pane, d, new_pane);
        assert(r->children[k].node == split_model(cs[k].node, pane, d, new_pane));
    }
}

/// A child of a split whose panes are distinct has distinct panes.
proof fn lemma_split_model_panes_unique_child(cs: Seq<ChildModel>, k: int)
    requires
        models_panes(cs).no_duplicates(),
        0 <= k < cs.len(),
    ensures
        cs[k].node.panes().no_duplicates(),
{
    lemma_models_panes_split_at(cs, k);
    let a = models_panes(cs.take(k));
    let p = cs[k].node.panes();
    let all = a + p + models_panes(cs.skip(k + 1));
    assert forall|u: int, v: int| 0 <= u < p.len() && 0 <= v < p.len() && u != v implies p[u] != p[v] by {
        assert(all[a.len() + u] == p[u]);
        assert(all[a.len() + v] == p[v]);
    }
}

/// Closing the pane that a split put beside `pane` gives back the node as
/// it was before the split.
pub proof fn lemma_close_undoes_split(m: NodeModel, pane: PaneId, d: SplitDirection, new_pane: PaneId)
    requires
        m.wf(),
        m.panes().contains(pane),
        !m.panes().contains(new_pane),
    ensures
        closed_model(split_model(m, pane, d, new_pane), new_pane).0 == m,
    decreases m,
{
    match m {
        NodeModel::Pane(id) => {
            assert(m.panes()[0] == pane);
            assert(m.panes()[0] == id);
            let cs2 = pair_split(d, id, new_pane)->children;
            assert(id != new_pane);
            lemma_first_pane_child_at(cs2, new_pane, 1, 0);
            assert(cs2.remove(1) =~= seq![ChildModel { weight: DEFAULT_CHILD_WEIGHT, node: NodeModel::Pane(id) }]);
        },
        NodeModel::Split { direction: cd, children: cs } => {
            lemma_split_wf_children(cd, cs);
            lemma_models_panes_contains(cs, pane);
            lemma_models_panes_contains(cs, new_pane);
            lemma_first_holding_props(cs, pane, 0);
            let k = first_holding_from(cs, pane, 0);
            assert(k < cs.len());
            assert(child_model_wf(cs[k], cd));
            let w = cs[k].weight;
            assert forall|j: int| 0 <= j < cs.len() implies #[trigger] cs[j].node != NodeModel::Pane(new_pane) by {
                if cs[j].node == NodeModel::Pane(new_pane) {
                    lemma_pane_child_holds(cs[j], new_pane);
                }
            }
            let s2 = split_model(m, pane, d, new_pane);
            let cs2 = s2->children;
            if cs[k].node == NodeModel::Pane(pane) {
                lemma_pane_child_holds(cs[k], pane);
                assert(pane != new_pane);
                if cd == d {
                    assert forall|j: int| 0 <= j < k + 1 implies cs2[j].node != NodeModel::Pane(new_pane) by {
                        if j < k {
                            assert(cs2[j] == cs[j]);
                        }
                    }
                    lemma_first_pane_child_at(cs2, new_pane, k + 1, 0);
                    assert(cs2.remove(k + 1) =~= cs);
                } else {
                    let p = pair_split(d, pane, new_pane);
                    assert forall|j: int| 0 <= j < cs2.len() implies cs2[j].node != NodeModel::Pane(new_pane) by {
                        if j != k {
                            assert(cs2[j] == cs[j]);
                        }
                    }
                    lemma_first_pane_child_none(cs2, new_pane, 0);
                    lemma_split_model_holds_new(cs[k].node, pane, d, new_pane);
                    assert forall|j: int| 0 <= j < k implies !(#[trigger] cs2[j].node.panes().contains(new_pane)) by {
                        assert(cs2[j] == cs[j]);
                    }
                    lemma_first_holding_at(cs2, new_pane, k, 0);
                    lemma_close_undoes_split(cs[k].node, pane, d, new_pane);
                    let rest = cs2.remove(k);
                    assert(rest.take(k) + seq![cs[k]] + rest.skip(k) =~= cs);
                }
            } else {
                lemma_split_model_holds_new(cs[k].node, pane, d, new_pane);
                lemma_close_undoes_split(cs[k].node, pane, d, new_pane);
                assert forall|j: int| 0 <= j < cs2.len() implies cs2[j].node != NodeModel::Pane(new_pane) by {
                    if j != k {
                        assert(cs2[j] == cs[j]);
                    }
                }
                lemma_first_pane_child_none(cs2, new_pane, 0);
                assert forall|j: int| 0 <= j < k implies !(#[trigger] cs2[j].node.panes().contains(new_pane)) by {
                    assert(cs2[j] == cs[j]);
                }
                lemma_first_holding_at(cs2, new_pane, k, 0);
                let rest = cs2.remove(k);
                assert(rest.take(k) + seq![cs[k]] + rest.skip(k) =~= cs);
            }
        },
    }
}

/// The node for a split of `direction` whose children are `children`: the
/// only child's node if one is left, the split otherwise.
fn collapse_split(direction: SplitDirection, children: Vec<SplitChild>, focus: PaneId) -> (r: LayoutNode)
    requires
        children@.len() >= 1,
        forall|j: int| 0 <= j < children@.len() ==> #[trigger] child_model_wf(children_model(children@)[j], direction),
        models_panes(children_model(children@)).contains(focus),
    ensures
        r@.wf(),
        r@.panes() == models_panes(children_model(children@)),
        r@.panes().contains(focus),
        r@ == collapsed(direction, children_model(children@)),
{
    let mut children = children;
    let ghost cs = children@;
    if children.len() == 1 {
        let only = children.remove(0);
        proof {
            let nm = children_model(cs);
            assert(nm =~= seq![nm[0]]);
            lemma_models_panes_single(nm[0]);
            assert(child_model_wf(nm[0], direction));
        }
        only.node
    } else {
        proof {
            lemma_split_model(direction, children);
            lemma_split_wf_intro(direction, children_model(children@));
        }
        LayoutNode::Split { direction, children }
    }
}

/// Puts the node that replaces a closed child back at `child_index`: a
/// split of the parent's direction gives up its children to the parent, any
/// other node takes the child's place with the child's weight.
#[verifier::loop_isolation(false)]
fn splice_replacement(
    direction: SplitDirection,
    children: Vec<SplitChild>,
    child_index: usize,
    inherited_weight: u16,
    replacement: LayoutNode,
) -> (r: Vec<SplitChild>)
    requires
        child_index <= children@.len(),
        replacement@.wf(),
        inherited_weight >= 1,
    ensures
        exists|mid: Seq<SplitChild>|
            #![trigger children_model(mid)]
            r@ == children@.take(child_index as int) + mid + children@.skip(child_index as int)
                && models_panes(children_model(mid)) == replacement@.panes()
                && forall|j: int| 0 <= j < mid.len() ==> #[trigger] child_model_wf(child_model(mid[j]), direction),
        children_model(r@) == children_model(children@).take(child_index as int) + replacement_children(
            direction,
            inherited_weight,
            replacement@,
        ) + children_model(children@).skip(child_index as int),
{
    let ghost start = children@;
    let mut children = children;
    match replacement {
        LayoutNode::Split { direction: child_direction, children: grand_children } => {
            let ghost g = grand_children@;
            proof {
                lemma_split_model(child_direction, grand_children);
                lemma_split_wf_children(child_direction, children_model(g));
            }
            if child_direction == direction {
                let mut grand_children = grand_children;
                while grand_children.len() > 0
                    invariant
                        0 <= grand_children.len() <= g.len(),
                        grand_children@ == g.take(grand_children.len() as int),
                        children@ == start.take(child_index as int)
                            + merged_children(g.skip(grand_children.len() as int), inherited_weight)
                            + start.skip(child_index as int),
                    decreases grand_children.len(),
                {
                    let ghost before = grand_children.len() as int;
                    let grand_child = grand_children.pop().unwrap();
                    let mut merged_weight = inherited_weight;
                    if grand_child.weight > merged_weight {
                        merged_weight = grand_child.weight;
                    }
                    children.insert(child_index, SplitChild { weight: merged_weight, node: grand_child.node });
                    proof {
                        assert(grand_child == g[before - 1]);
                        assert(g.skip(before - 1) =~= seq![g[before - 1]] + g.skip(before));
                        assert(merged_children(g.skip(before - 1), inherited_weight) =~= seq![merged_child(g[before - 1], inherited_weight)] + merged_children(g.skip(before), inherited_weight));
                        assert(children@ =~= start.take(child_index as int)
                            + merged_children(g.skip(grand_children.len() as int), inherited_weight)
                            + start.skip(child_index as int));
                    }
                }
                proof {
                    let mid = merged_children(g, inherited_weight);
                    assert(g.skip(0) =~= g);
                    lemma_models_panes_same_nodes(children_model(mid), children_model(g));
                    assert forall|j: int| 0 <= j < mid.len() implies #[trigger] child_model_wf(child_model(mid[j]), direction) by {
                        assert(child_model_wf(children_model(g)[j], child_direction));
                    }
                }
                children
            } else {
                let kept = SplitChild {
                    weight: inherited_weight,
                    node: LayoutNode::Split { direction: child_direction, children: grand_children },
                };
                children.insert(child_index, kept);
                proof {
                    let mid = seq![kept];
                    assert(children@ =~= start.take(child_index as int) + mid + start.skip(child_index as int));
                    let mm = children_model(mid);
                    assert(mm =~= seq![mm[0]]);
                    lemma_models_panes_single(mm[0]);
                    assert(child_model_wf(child_model(mid[0]), direction));
                }
                children
            }
        },
        LayoutNode::Pane(remaining) => {
            let kept = SplitChild { weight: inherited_weight, node: LayoutNode::Pane(remaining) };
            children.insert(child_index, kept);
            proof {
                let mid = seq![kept];
                assert(children@ =~= start.take(child_index as int) + mid + start.skip(child_index as int));
                let mm = children_model(mid);
                assert(mm =~= seq![mm[0]]);
                lemma_models_panes_single(mm[0]);
                assert(child_model_wf(child_model(mid[0]), direction));
            }
            children
        },
    }
}

/// A grandchild moved into its grandparent, with the larger of its own and
/// its former parent's weight.
pub open spec fn merged_child(gc: SplitChild, inherited: u16) -> SplitChild {
    let w = if gc.weight > inherited { gc.weight } else { inherited };
    SplitChild { weight: if w >= 1 { w } else { 1 }, node: gc.node }
}

/// Grandchildren moved into their grandparent.
pub open spec fn merged_children(gcs: Seq<SplitChild>, inherited: u16) -> Seq<SplitChild> {
    gcs.map_values(|gc: SplitChild| merged_child(gc, inherited))
}

/// A well-formed node is a pane exactly when it holds one pane.
pub proof fn lemma_wf_panes_len(m: NodeModel)
    requires
        m.wf(),
    ensures
        m is Pane <==> m.panes().len() == 1,
        m.panes().len() >= 1,
{
    lemma_wf_panes_nonempty(m);
    match m {
        NodeModel::Pane(_) => {},
        NodeModel::Split { direction, children } => {
            lemma_split_wf_children(direction, children);
            assert(children =~= children.take(1) + children.skip(1));
            lemma_models_panes_add(children.take(1), children.skip(1));
            lemma_models_panes_split_at(children.take(1), 0);
            lemma_models_panes_split_at(children.skip(1), 0);
            assert(children.take(1)[0] == children[0]);
            assert(children.skip(1)[0] == children[1]);
            assert(child_model_wf(children[0], direction));
            assert(child_model_wf(children[1], direction));
            lemma_wf_panes_nonempty(children[0].node);
            lemma_wf_panes_nonempty(children[1].node);
        },
    }
}

/// Errors of layout operations.
#[derive(Debug, Clone, Copy, PartialEq, Eq, Structural)]
pub enum LayoutError {
    EmptyLayout,
    PaneNotFound(PaneId),
    CannotSplitMissingPane(PaneId),
    CannotCloseLastPane,
}

/// The layout of one tab: a tree of panes and the focused pane.
#[derive(Debug)]
pub struct LayoutTree {
    pub(crate) root: LayoutNode,
    pub(crate) focused_pane: PaneId,
}

impl LayoutTree {
    /// The mathematical form of the tree.
    pub closed spec fn root_model(&self) -> NodeModel {
        self.root@
    }

    /// The focused pane.
    pub closed spec fn focused(&self) -> PaneId {
        self.focused_pane
    }

    /// The model and the focus are those of the fields.
    pub(crate) proof fn lemma_fields(&self)
        ensures
            self.root_model() == self.root@,
            self.focused() == self.focused_pane,
    {
    }

    /// The panes of the layout, left to right.
    pub open spec fn panes(&self) -> Seq<PaneId> {
        self.root_model().panes()
    }

    /// Well-formedness: the tree is well formed and holds the focused pane.
    pub open spec fn wf(&self) -> bool {
        &&& self.root_model().wf()
        &&& self.panes().contains(self.focused())
    }

    /// No pane occurs twice.
    pub open spec fn unique(&self) -> bool {
        self.panes().no_duplicates()
    }

    /// A layout of a single pane, which is focused.
    pub fn new(root_pane: PaneId) -> (tree: Self)
        ensures
            tree.wf(),
            tree.unique(),
            tree.panes() == seq![root_pane],
            tree.focused() == root_pane,
            tree.root_model() == NodeModel::Pane(root_pane),
    {
        let tree = LayoutTree { root: LayoutNode::Pane(root_pane), focused_pane: root_pane };
        proof {
            assert(tree.panes() =~= seq![root_pane]);
            assert(tree.panes()[0] == root_pane);
        }
        tree
    }

    pub fn focused_pane(&self) -> (id: PaneId)
        ensures
            id == self.focused(),
    {
        self.focused_pane
    }

    pub fn contains(&self, pane_id: PaneId) -> (r: bool)
        ensures
            r == self.panes().contains(pane_id),
    {
        self.root.contains(pane_id)
    }

    /// The panes of the layout, left to right.
    pub fn pane_ids(&self) -> (ids: Vec<PaneId>)
        ensures
            ids@ == self.panes(),
    {
        let mut ids: Vec<PaneId> = Vec::new();
        self.root.collect_panes(&mut ids);
        proof {
            assert(ids@ =~= self.panes());
        }
        ids
    }

    /// Splits the focused pane in `direction`; `new_pane` is placed right
    /// after it and becomes the focused pane.
    pub fn split_focused(&mut self, direction: SplitDirection, new_pane: PaneId) -> (r: PaneId)
        requires
            old(self).wf(),
        ensures
            r == new_pane,
            final(self).wf(),
            final(self).focused() == new_pane,
            final(self).root_model() == split_model(old(self).root_model(), old(self).focused(), direction, new_pane),
            exists|k: int|
                is_first_occurrence(old(self).panes(), k, old(self).focused()) && final(self).panes()
                    == old(self).panes().insert(k + 1, new_pane),
            old(self).unique() && !old(self).panes().contains(new_pane) ==> final(self).unique(),
    {
        let focused = self.focused_pane;
        let mut root = LayoutNode::Pane(focused);
        std::mem::swap(&mut root, &mut self.root);
        let (node, replaced) = root.replace_pane_with_split(focused, direction, new_pane);
        self.root = node;
        self.focused_pane = new_pane;
        proof {
            let k = choose|k: int|
                is_first_occurrence(old(self).panes(), k, focused) && self.panes() == old(self).panes().insert(k + 1, new_pane);
            assert(self.panes()[k + 1] == new_pane);
            if old(self).unique() && !old(self).panes().contains(new_pane) {
                let s = old(self).panes();
                let t = self.panes();
                assert forall|i: int, j: int| 0 <= i < t.len() && 0 <= j < t.len() && i != j implies t[i] != t[j] by {
                    if i <= k && j <= k {
                        assert(t[i] == s[i] && t[j] == s[j]);
                    } else if i <= k && j == k + 1 {
                        assert(t[i] == s[i]);
                    } else if i == k + 1 && j <= k {
                        assert(t[j] == s[j]);
                    } else if i <= k && j > k + 1 {
                        assert(t[i] == s[i] && t[j] == s[j - 1]);
                    } else if i > k + 1 && j <= k {
                        assert(t[i] == s[i - 1] && t[j] == s[j]);
                    } else if i == k + 1 {
                        assert(t[j] == s[j - 1]);
                    } else if j == k + 1 {
                        assert(t[i] == s[i - 1]);
                    } else {
                        assert(t[i] == s[i - 1] && t[j] == s[j - 1]);
                    }
                }
            }
        }
        new_pane
    }

    /// Closes the focused pane. The last pane of a layout cannot be closed.
    pub fn close_focused(&mut self) -> (r: Result<PaneId, LayoutError>)
        requires
            old(self).wf(),
        ensures
            final(self).wf(),
            (r == Err::<PaneId, LayoutError>(LayoutError::CannotCloseLastPane)) <==> old(self).panes().len() == 1,
            r is Ok || r == Err::<PaneId, LayoutError>(LayoutError::CannotCloseLastPane),
            r is Err ==> final(self).root_model() == old(self).root_model() && final(self).focused() == old(self).focused(),
            r is Ok ==> r->Ok_0 == old(self).focused(),
            r is Ok ==> final(self).root_model() == closed_model(old(self).root_model(), old(self).focused()).0
                && Some(final(self).focused()) == closed_model(old(self).root_model(), old(self).focused()).1,
            r is Ok ==> exists|k: int|
                0 <= k < old(self).panes().len() && old(self).panes()[k] == old(self).focused()
                    && final(self).panes() == old(self).panes().remove(k),
            r is Ok && old(self).unique() ==> final(self).unique(),
    {
        proof {
            lemma_wf_panes_len(self.root_model());
        }
        if matches!(self.root, LayoutNode::Pane(_)) {
            return Err(LayoutError::CannotCloseLastPane);
        }
        let pane_to_close = self.focused_pane;
        let mut root = LayoutNode::Pane(pane_to_close);
        std::mem::swap(&mut root, &mut self.root);
        let ghost old_model = root@;
        let (node, focus) = root.close_pane(pane_to_close);
        match focus {
            Some(new_focus) => {
                self.root = node;
                self.focused_pane = new_focus;
                proof {
                    let k = choose|k: int|
                        0 <= k < old_model.panes().len() && old_model.panes()[k] == pane_to_close
                            && node@.panes() == old_model.panes().remove(k);
                    if old(self).unique() {
                        let s = old_model.panes();
                        let t = self.panes();
                        assert forall|i: int, j: int| 0 <= i < t.len() && 0 <= j < t.len() && i != j implies t[i] != t[j] by {
                            let ii = if i < k { i } else { i + 1 };
                            let jj = if j < k { j } else { j + 1 };
                            assert(t[i] == s[ii] && t[j] == s[jj]);
                        }
                    }
                }
                Ok(pane_to_close)
            },
            None => {
                self.root = node;
                Err(LayoutError::PaneNotFound(pane_to_close))
            },
        }
    }

    /// Focuses `pane_id` if the layout holds it.
    pub fn focus_pane(&mut self, pane_id: PaneId) -> (r: Result<(), LayoutError>)
        requires
            old(self).wf(),
        ensures
            final(self).wf(),
            final(self).root_model() == old(self).root_model(),
            r is Ok <==> old(self).panes().contains(pane_id),
            r is Ok ==> final(self).focused() == pane_id,
            r is Err ==> r == Err::<(), LayoutError>(LayoutError::PaneNotFound(pane_id)),
            r is Err ==> final(self).focused() == old(self).focused(),
    {
        if self.contains(pane_id) {
            self.focused_pane = pane_id;
            Ok(())
        } else {
            Err(LayoutError::PaneNotFound(pane_id))
        }
    }
}

} // verus!
