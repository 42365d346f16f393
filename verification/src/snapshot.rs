//! The persisted form of a layout, and how a layout is rebuilt from it.

use vstd::prelude::*;

use crate::base::{PaneId, SplitDirection};
use crate::layout::{
    child_model_wf, children_model, lemma_models_panes_add, lemma_models_panes_single,
    lemma_split_model, lemma_split_wf_children, lemma_split_wf_intro, models_panes, ChildModel,
    LayoutError, LayoutNode, LayoutTree, NodeModel, SplitChild, DEFAULT_CHILD_WEIGHT,
};

verus! {

broadcast use vstd::std_specs::vec::group_vec_axioms;

/// The persisted form of a layout node.
#[derive(Debug)]
pub enum LayoutNodeSnapshot {
    Pane { pane_id: PaneId },
    Split { direction: SplitDirection, children: Vec<LayoutSplitChildSnapshot> },
}

/// The persisted form of a split child.
#[derive(Debug)]
pub struct LayoutSplitChildSnapshot {
    pub weight: u16,
    pub node: LayoutNodeSnapshot,
}

/// The persisted form of a layout: its tree and its focused pane.
#[derive(Debug)]
pub struct LayoutSnapshot {
    pub root: LayoutNodeSnapshot,
    pub focused_pane: PaneId,
}

/// The mathematical form of a snapshot node: the node it describes.
pub open spec fn snapshot_model(s: LayoutNodeSnapshot) -> NodeModel
    decreases s,
{
    match s {
        LayoutNodeSnapshot::Pane { pane_id } => NodeModel::Pane(pane_id),
        LayoutNodeSnapshot::Split { direction, children } => NodeModel::Split {
            direction,
            children: Seq::new(
                children@.len(),
                |i: int|
                    if 0 <= i < children@.len() {
                        ChildModel { weight: children@[i].weight, node: snapshot_model(children@[i].node) }
                    } else {
                        ChildModel { weight: 0, node: NodeModel::Pane(PaneId::spec_new(0)) }
                    },
            ),
        },
    }
}

impl View for LayoutNodeSnapshot {
    type V = NodeModel;

    open spec fn view(&self) -> NodeModel {
        snapshot_model(*self)
    }
}

/// The model of snapshot children.
pub open spec fn snapshot_children_model(cs: Seq<LayoutSplitChildSnapshot>) -> Seq<ChildModel> {
    cs.map_values(|c: LayoutSplitChildSnapshot| ChildModel { weight: c.weight, node: c.node@ })
}

proof fn lemma_snapshot_split_model(direction: SplitDirection, children: Vec<LayoutSplitChildSnapshot>)
    ensures
        (LayoutNodeSnapshot::Split { direction, children })@ == (NodeModel::Split {
            direction,
            children: snapshot_children_model(children@),
        }),
{
    let n = LayoutNodeSnapshot::Split { direction, children };
    match n@ {
        NodeModel::Split { direction: d, children: ms } => {
            assert(ms =~= snapshot_children_model(children@));
        },
        _ => {},
    }
}

/// A weight of at least one.
pub open spec fn at_least_one(w: u16) -> u16 {
    if w >= 1 {
        w
    } else {
        1
    }
}

/// The normal form of a node: splits of a single child are replaced by the
/// child, a split inside a split of the same direction gives its children
/// to the outer split, and every weight is at least one.
pub open spec fn normalize_model(m: NodeModel) -> NodeModel
    decreases m, 0nat,
{
    match m {
        NodeModel::Pane(_) => m,
        NodeModel::Split { direction, children } => {
            let f = flatten_children(direction, children);
            if f.len() == 1 {
                f[0].node
            } else {
                NodeModel::Split { direction, children: f }
            }
        },
    }
}

/// The normalized children of a split of direction `d`.
pub open spec fn flatten_children(d: SplitDirection, cs: Seq<ChildModel>) -> Seq<ChildModel>
    decreases cs, cs.len(),
{
    if cs.len() == 0 {
        seq![]
    } else {
        let c = cs.last();
        let n = normalize_model(c.node);
        flatten_children(d, cs.drop_last()) + match n {
            NodeModel::Split { direction: cd, children: g } => if cd == d {
                g
            } else {
                seq![ChildModel { weight: at_least_one(c.weight), node: n }]
            },
            NodeModel::Pane(_) => seq![ChildModel { weight: at_least_one(c.weight), node: n }],
        }
    }
}

/// Every split of the node has at least one child.
pub open spec fn no_empty_split(m: NodeModel) -> bool
    decreases m, 0nat,
{
    match m {
        NodeModel::Pane(_) => true,
        NodeModel::Split { children, .. } => children.len() >= 1 && children_no_empty_split(children),
    }
}

/// No child holds an empty split.
pub open spec fn children_no_empty_split(cs: Seq<ChildModel>) -> bool
    decreases cs, cs.len(),
{
    if cs.len() == 0 {
        true
    } else {
        children_no_empty_split(cs.drop_last()) && no_empty_split(cs.last().node)
    }
}

proof fn lemma_flatten_wf(d: SplitDirection, cs: Seq<ChildModel>)
    requires
        forall|i: int| 0 <= i < cs.len() ==> #[trigger] child_model_wf(cs[i], d),
    ensures
        flatten_children(d, cs) == cs,
    decreases cs, cs.len(),
{
    if cs.len() > 0 {
        assert forall|i: int| 0 <= i < cs.drop_last().len() implies #[trigger] child_model_wf(cs.drop_last()[i], d) by {
            assert(cs.drop_last()[i] == cs[i]);
        }
        lemma_flatten_wf(d, cs.drop_last());
        let c = cs.last();
        assert(child_model_wf(cs[cs.len() - 1], d));
        lemma_normalize_wf(c.node);
        assert(cs.drop_last() + seq![c] =~= cs);
    }
}

/// A well-formed node is its own normal form.
proof fn lemma_normalize_wf(m: NodeModel)
    requires
        m.wf(),
    ensures
        normalize_model(m) == m,
    decreases m, 0nat,
{
    match m {
        NodeModel::Pane(_) => {},
        NodeModel::Split { direction, children } => {
            lemma_split_wf_children(direction, children);
            lemma_flatten_wf(direction, children);
        },
    }
}

proof fn lemma_flatten_normal(d: SplitDirection, cs: Seq<ChildModel>)
    requires
        children_no_empty_split(cs),
    ensures
        forall|i: int| 0 <= i < flatten_children(d, cs).len() ==> #[trigger] child_model_wf(flatten_children(d, cs)[i], d),
        models_panes(flatten_children(d, cs)) == models_panes(cs),
        flatten_children(d, cs).len() >= cs.len(),
    decreases cs, cs.len(),
{
    if cs.len() > 0 {
        lemma_flatten_normal(d, cs.drop_last());
        let c = cs.last();
        let n = normalize_model(c.node);
        lemma_normalize_normal(c.node);
        let a = flatten_children(d, cs.drop_last());
        let b = match n {
            NodeModel::Split { direction: cd, children: g } => if cd == d {
                g
            } else {
                seq![ChildModel { weight: at_least_one(c.weight), node: n }]
            },
            NodeModel::Pane(_) => seq![ChildModel { weight: at_least_one(c.weight), node: n }],
        };
        assert(flatten_children(d, cs) == a + b);
        assert(models_panes(b) == c.node.panes() && b.len() >= 1 && forall|i: int| 0 <= i < b.len() ==> #[trigger] child_model_wf(b[i], d)) by {
            match n {
                NodeModel::Split { direction: cd, children: g } => {
                    if cd == d {
                        lemma_split_wf_children(cd, g);
                    } else {
                        lemma_models_panes_single(b[0]);
                        assert(b =~= seq![b[0]]);
                    }
                },
                NodeModel::Pane(_) => {
                    lemma_models_panes_single(b[0]);
                    assert(b =~= seq![b[0]]);
                },
            }
        }
        lemma_models_panes_add(a, b);
        assert forall|i: int| 0 <= i < (a + b).len() implies #[trigger] child_model_wf((a + b)[i], d) by {
            if i < a.len() {
                assert((a + b)[i] == a[i]);
            } else {
                assert((a + b)[i] == b[i - a.len()]);
            }
        }
    }
}

/// The normal form of a node without empty splits is well formed and has
/// the same panes in the same order.
pub proof fn lemma_normalize_normal(m: NodeModel)
    requires
        no_empty_split(m),
    ensures
        normalize_model(m).wf(),
        normalize_model(m).panes() == m.panes(),
    decreases m, 0nat,
{
    match m {
        NodeModel::Pane(_) => {},
        NodeModel::Split { direction, children } => {
            lemma_flatten_normal(direction, children);
            let f = flatten_children(direction, children);
            if f.len() == 1 {
                assert(f =~= seq![f[0]]);
                lemma_models_panes_single(f[0]);
                assert(child_model_wf(f[0], direction));
            } else {
                lemma_split_wf_intro(direction, f);
            }
        },
    }
}

proof fn lemma_wf_no_empty_children(d: SplitDirection, cs: Seq<ChildModel>)
    requires
        forall|i: int| 0 <= i < cs.len() ==> #[trigger] child_model_wf(cs[i], d),
    ensures
        children_no_empty_split(cs),
    decreases cs, cs.len(),
{
    if cs.len() > 0 {
        assert forall|i: int| 0 <= i < cs.drop_last().len() implies #[trigger] child_model_wf(cs.drop_last()[i], d) by {
            assert(cs.drop_last()[i] == cs[i]);
        }
        lemma_wf_no_empty_children(d, cs.drop_last());
        assert(child_model_wf(cs[cs.len() - 1], d));
        lemma_wf_no_empty(cs.last().node);
    }
}

proof fn lemma_wf_no_empty(m: NodeModel)
    requires
        m.wf(),
    ensures
        no_empty_split(m),
    decreases m, 0nat,
{
    match m {
        NodeModel::Pane(_) => {},
        NodeModel::Split { direction, children } => {
            lemma_split_wf_children(direction, children);
            lemma_wf_no_empty_children(direction, children);
        },
    }
}

/// A well-formed layout is left as it is by normalization: saving a layout
/// and restoring it gives the same layout back.
pub proof fn law_normal_form_of_wf(m: NodeModel)
    requires
        m.wf(),
    ensures
        no_empty_split(m),
        normalize_model(m) == m,
{
    lemma_wf_no_empty(m);
    lemma_normalize_wf(m);
}

/// Normalization of a node without empty splits gives a well-formed node
/// with the same panes, and normalizing again changes nothing.
pub proof fn law_normalize_idempotent(m: NodeModel)
    requires
        no_empty_split(m),
    ensures
        normalize_model(m).wf(),
        normalize_model(m).panes() == m.panes(),
        normalize_model(normalize_model(m)) == normalize_model(m),
{
    lemma_normalize_normal(m);
    lemma_normalize_wf(normalize_model(m));
}

/// Each child of a sequence without empty splits has none.
proof fn lemma_children_no_empty_split(cs: Seq<ChildModel>, i: int)
    requires
        children_no_empty_split(cs),
        0 <= i < cs.len(),
    ensures
        no_empty_split(cs[i].node),
    decreases cs.len(),
{
    if i < cs.len() - 1 {
        lemma_children_no_empty_split(cs.drop_last(), i);
        assert(cs.drop_last()[i] == cs[i]);
    }
}

/// The normalized children of the first `i + 1` extend those of the first `i`.
proof fn lemma_flatten_take_succ(d: SplitDirection, cs: Seq<ChildModel>, i: int)
    requires
        0 <= i < cs.len(),
    ensures
        flatten_children(d, cs.take(i + 1)) == flatten_children(d, cs.take(i)) + flatten_children(d, seq![cs[i]]),
{
    assert(cs.take(i + 1).drop_last() =~= cs.take(i));
    assert(cs.take(i + 1).last() == cs[i]);
    assert(seq![cs[i]].drop_last() =~= Seq::<ChildModel>::empty());
    assert(flatten_children(d, Seq::<ChildModel>::empty()) =~= Seq::<ChildModel>::empty());
    assert(Seq::<ChildModel>::empty() + flatten_children(d, seq![cs[i]]) =~= flatten_children(d, seq![cs[i]]));
}

impl LayoutNode {
    /// The persisted form of this node.
    #[verifier::loop_isolation(false)]
    pub fn to_snapshot(&self) -> (r: LayoutNodeSnapshot)
        ensures
            r@ == self@,
        decreases self,
    {
        match self {
            LayoutNode::Pane(pane_id) => LayoutNodeSnapshot::Pane { pane_id: *pane_id },
            LayoutNode::Split { direction, children } => {
                let mut out: Vec<LayoutSplitChildSnapshot> = Vec::new();
                let mut i: usize = 0;
                while i < children.len()
                    invariant
                        0 <= i <= children@.len(),
                        out@.len() == i,
                        forall|j: int| 0 <= j < i ==> #[trigger] snapshot_children_model(out@)[j] == children_model(children@)[j],
                    decreases children@.len() - i,
                {
                    let node = children[i].node.to_snapshot();
                    let ghost before = out@;
                    out.push(LayoutSplitChildSnapshot { weight: children[i].weight, node });
                    proof {
                        assert forall|j: int| 0 <= j < i + 1 implies #[trigger] snapshot_children_model(out@)[j] == children_model(children@)[j] by {
                            if j < i {
                                assert(out@[j] == before[j]);
                                assert(snapshot_children_model(before)[j] == children_model(children@)[j]);
                            }
                        }
                    }
                    i = i + 1;
                }
                proof {
                    lemma_split_model(*direction, *children);
                    lemma_snapshot_split_model(*direction, out);
                    assert(snapshot_children_model(out@) =~= children_model(children@));
                }
                LayoutNodeSnapshot::Split { direction: *direction, children: out }
            },
        }
    }

    /// The node a snapshot describes, as it stands.
    #[verifier::loop_isolation(false)]
    pub fn from_snapshot(snapshot: LayoutNodeSnapshot) -> (r: LayoutNode)
        ensures
            r@ == snapshot@,
        decreases snapshot,
    {
        match snapshot {
            LayoutNodeSnapshot::Pane { pane_id } => LayoutNode::Pane(pane_id),
            LayoutNodeSnapshot::Split { direction, children } => {
                let ghost orig = children@;
                proof {
                    lemma_snapshot_split_model(direction, children);
                }
                let n = children.len();
                let mut rest = children;
                let mut out: Vec<SplitChild> = Vec::new();
                let mut i: usize = 0;
                while i < n
                    invariant
                        0 <= i <= n,
                        n == orig.len(),
                        rest@ == orig.skip(i as int),
                        out@.len() == i,
                        forall|j: int| 0 <= j < i ==> #[trigger] children_model(out@)[j] == snapshot_children_model(orig)[j],
                    decreases n - i,
                {
                    let c = rest.remove(0);
                    proof {
                        assert(c == orig[i as int]);
                        assert(rest@ =~= orig.skip(i + 1));
                    }
                    let node = LayoutNode::from_snapshot(c.node);
                    let ghost before = out@;
                    out.push(SplitChild { weight: c.weight, node });
                    proof {
                        assert forall|j: int| 0 <= j < i + 1 implies #[trigger] children_model(out@)[j] == snapshot_children_model(orig)[j] by {
                            if j < i {
                                assert(out@[j] == before[j]);
                                assert(children_model(before)[j] == snapshot_children_model(orig)[j]);
                            }
                        }
                    }
                    i = i + 1;
                }
                proof {
                    lemma_split_model(direction, out);
                    assert(children_model(out@) =~= snapshot_children_model(orig));
                }
                LayoutNode::Split { direction, children: out }
            },
        }
    }
}

/// The normal form of a node: see `normalize_model`.
#[verifier::loop_isolation(false)]
pub fn normalize(node: LayoutNode) -> (r: LayoutNode)
    requires
        no_empty_split(node@),
    ensures
        r@ == normalize_model(node@),
    decreases node,
{
    match node {
        LayoutNode::Pane(id) => LayoutNode::Pane(id),
        LayoutNode::Split { direction, children } => {
            let ghost orig = children@;
            let ghost cs = children_model(orig);
            proof {
                lemma_split_model(direction, children);
            }
            let n = children.len();
            let mut rest = children;
            let mut out: Vec<SplitChild> = Vec::new();
            let mut i: usize = 0;
            while i < n
                invariant
                    0 <= i <= n,
                    n == orig.len(),
                    cs == children_model(orig),
                    children_no_empty_split(cs),
                    rest@ == orig.skip(i as int),
                    children_model(out@) == flatten_children(direction, cs.take(i as int)),
                decreases n - i,
            {
                let c = rest.remove(0);
                proof {
                    assert(c == orig[i as int]);
                    assert(rest@ =~= orig.skip(i + 1));
                    lemma_children_no_empty_split(cs, i as int);
                    lemma_flatten_take_succ(direction, cs, i as int);
                    assert(seq![cs[i as int]].last() == cs[i as int]);
                    assert(seq![cs[i as int]].drop_last() =~= Seq::<ChildModel>::empty());
                }
                let weight = c.weight;
                let normalized = normalize(c.node);
                let ghost nm = normalized@;
                let ghost before = out@;
                let ghost piece = flatten_children(direction, seq![cs[i as int]]);
                proof {
                    assert(nm == normalize_model(cs[i as int].node));
                    assert(weight == cs[i as int].weight);
                    assert(flatten_children(direction, Seq::<ChildModel>::empty()) =~= Seq::<ChildModel>::empty());
                    assert(piece == Seq::<ChildModel>::empty() + match nm {
                        NodeModel::Split { direction: cd, children: g } => if cd == direction {
                            g
                        } else {
                            seq![ChildModel { weight: at_least_one(weight), node: nm }]
                        },
                        NodeModel::Pane(_) => seq![ChildModel { weight: at_least_one(weight), node: nm }],
                    });
                }
                match normalized {
                    LayoutNode::Split { direction: child_direction, children: grand_children } => {
                        if child_direction == direction {
                            let mut grand_children = grand_children;
                            proof {
                                lemma_split_model(child_direction, grand_children);
                            }
                            out.append(&mut grand_children);
                            proof {
                                assert(piece =~= nm->children);
                                assert(children_model(out@) =~= children_model(before) + nm->children);
                            }
                        } else {
                            let child = SplitChild::new(weight, LayoutNode::Split { direction: child_direction, children: grand_children });
                            out.push(child);
                            proof {
                                assert(piece =~= seq![ChildModel { weight: at_least_one(weight), node: nm }]);
                                assert(children_model(out@) =~= children_model(before) + seq![ChildModel { weight: at_least_one(weight), node: nm }]);
                            }
                        }
                    },
                    LayoutNode::Pane(id) => {
                        let child = SplitChild::new(weight, LayoutNode::Pane(id));
                        out.push(child);
                        proof {
                            assert(piece =~= seq![ChildModel { weight: at_least_one(weight), node: nm }]);
                            assert(children_model(out@) =~= children_model(before) + seq![ChildModel { weight: at_least_one(weight), node: nm }]);
                        }
                    },
                }
                i = i + 1;
            }
            proof {
                assert(cs.take(n as int) =~= cs);
            }
            if out.len() == 1 {
                let only = out.remove(0);
                only.node
            } else {
                proof {
                    lemma_split_model(direction, out);
                }
                LayoutNode::Split { direction, children: out }
            }
        },
    }
}

/// The normal form of a snapshot node: see `normalize_model`.
pub fn normalize_snapshot(node: LayoutNodeSnapshot) -> (r: LayoutNodeSnapshot)
    requires
        no_empty_split(node@),
    ensures
        r@ == normalize_model(node@),
{
    let tree = LayoutNode::from_snapshot(node);
    let normal = normalize(tree);
    normal.to_snapshot()
}

impl LayoutTree {
    /// The persisted form of the layout.
    pub fn to_snapshot(&self) -> (r: LayoutSnapshot)
        ensures
            r.root@ == self.root_model(),
            r.focused_pane == self.focused(),
    {
        proof {
            self.lemma_fields();
        }
        LayoutSnapshot { root: self.root.to_snapshot(), focused_pane: self.focused_pane }
    }

    /// Rebuilds a layout from its persisted form, in normal form. Fails when
    /// the focused pane is not in the layout.
    pub fn from_snapshot(snapshot: LayoutSnapshot) -> (r: Result<LayoutTree, LayoutError>)
        requires
            no_empty_split(snapshot.root@),
        ensures
            r is Ok <==> snapshot.root@.panes().contains(snapshot.focused_pane),
            r matches Ok(t) ==> t.wf() && t.root_model() == normalize_model(snapshot.root@)
                && t.focused() == snapshot.focused_pane,
            r is Err ==> r == Err::<LayoutTree, LayoutError>(LayoutError::PaneNotFound(snapshot.focused_pane)),
    {
        proof {
            law_normalize_idempotent(snapshot.root@);
        }
        let focused = snapshot.focused_pane;
        let root = normalize(LayoutNode::from_snapshot(snapshot.root));
        if !root.contains(focused) {
            return Err(LayoutError::PaneNotFound(focused));
        }
        let tree = LayoutTree { root, focused_pane: focused };
        proof {
            tree.lemma_fields();
        }
        Ok(tree)
    }
}

/// A snapshot node as it is written in a state file: a pane, or a split
/// given either by its list of children or, in the older binary form, by a
/// first and a second node.
#[derive(Debug)]
pub struct LayoutNodeSnapshotRepr {
    pub pane: Option<PaneId>,
    pub split: Option<LayoutSplitSnapshotRepr>,
}

/// A split as it is written in a state file.
#[derive(Debug)]
pub enum LayoutSplitSnapshotRepr {
    Nary { direction: SplitDirection, children: Vec<LayoutSplitChildSnapshotRepr> },
    Binary { direction: SplitDirection, first: Box<LayoutNodeSnapshotRepr>, second: Box<LayoutNodeSnapshotRepr> },
}

/// A split child as it is written in a state file.
#[derive(Debug)]
pub struct LayoutSplitChildSnapshotRepr {
    pub weight: u16,
    pub node: LayoutNodeSnapshotRepr,
}

/// The written node holds exactly one of a pane and a split, every split
/// has a child, and so on all the way down.
pub open spec fn repr_ok(r: LayoutNodeSnapshotRepr) -> bool
    decreases r, 0nat,
{
    match r.pane {
        Some(_) => r.split is None,
        None => match r.split {
            None => false,
            Some(LayoutSplitSnapshotRepr::Nary { children, .. }) => children@.len() >= 1 && reprs_ok(children@),
            Some(LayoutSplitSnapshotRepr::Binary { first, second, .. }) => repr_ok(*first) && repr_ok(*second),
        },
    }
}

/// Every written child is well formed.
pub open spec fn reprs_ok(cs: Seq<LayoutSplitChildSnapshotRepr>) -> bool
    decreases cs, cs.len(),
{
    if cs.len() == 0 {
        true
    } else {
        reprs_ok(cs.drop_last()) && repr_ok(cs.last().node)
    }
}

/// The node a written node describes, before normalization; children read
/// in the binary form take the default weight, others at least one.
pub open spec fn repr_model(r: LayoutNodeSnapshotRepr) -> NodeModel
    decreases r, 0nat,
{
    match r.pane {
        Some(id) => NodeModel::Pane(id),
        None => match r.split {
            None => NodeModel::Pane(PaneId::spec_new(0)),
            Some(LayoutSplitSnapshotRepr::Nary { direction, children }) => NodeModel::Split {
                direction,
                children: reprs_model(children@),
            },
            Some(LayoutSplitSnapshotRepr::Binary { direction, first, second }) => NodeModel::Split {
                direction,
                children: seq![
                    ChildModel { weight: 1, node: repr_model(*first) },
                    ChildModel { weight: 1, node: repr_model(*second) },
                ],
            },
        },
    }
}

/// The children written children describe.
pub open spec fn reprs_model(cs: Seq<LayoutSplitChildSnapshotRepr>) -> Seq<ChildModel>
    decreases cs, cs.len(),
{
    if cs.len() == 0 {
        seq![]
    } else {
        reprs_model(cs.drop_last()) + seq![ChildModel { weight: at_least_one(cs.last().weight), node: repr_model(cs.last().node) }]
    }
}

proof fn lemma_reprs_ok(cs: Seq<LayoutSplitChildSnapshotRepr>)
    requires
        reprs_ok(cs),
    ensures
        children_no_empty_split(reprs_model(cs)),
        reprs_model(cs).len() == cs.len(),
    decreases cs, cs.len(),
{
    if cs.len() > 0 {
        lemma_reprs_ok(cs.drop_last());
        lemma_repr_ok(cs.last().node);
        let m = reprs_model(cs);
        assert(m.drop_last() =~= reprs_model(cs.drop_last()));
    }
}

/// A well-formed written node describes a node without empty splits.
proof fn lemma_repr_ok(r: LayoutNodeSnapshotRepr)
    requires
        repr_ok(r),
    ensures
        no_empty_split(repr_model(r)),
    decreases r, 0nat,
{
    match r.pane {
        Some(id) => {
            assert(repr_model(r) == NodeModel::Pane(id));
            assert(no_empty_split(NodeModel::Pane(id)));
            assert(no_empty_split(repr_model(r)));
        },
        None => match r.split {
            None => {},
            Some(LayoutSplitSnapshotRepr::Nary { direction, children }) => {
                lemma_reprs_ok(children@);
                assert(repr_model(r) == NodeModel::Split { direction, children: reprs_model(children@) });
            },
            Some(LayoutSplitSnapshotRepr::Binary { direction, first, second }) => {
                lemma_repr_ok(*first);
                lemma_repr_ok(*second);
                let cs = seq![
                    ChildModel { weight: 1, node: repr_model(*first) },
                    ChildModel { weight: 1, node: repr_model(*second) },
                ];
                assert(cs.drop_last().drop_last() =~= Seq::<ChildModel>::empty());
                assert(cs.drop_last().last() == cs[0]);
                assert(children_no_empty_split(cs.drop_last().drop_last()));
                assert(children_no_empty_split(cs.drop_last()));
                assert(children_no_empty_split(cs));
                assert(repr_model(r) == NodeModel::Split { direction, children: cs });
            },
        },
    }
}

/// The snapshot a written node describes, before normalization.
#[verifier::loop_isolation(false)]
fn snapshot_from_repr(r: LayoutNodeSnapshotRepr) -> (s: LayoutNodeSnapshot)
    requires
        repr_ok(r),
    ensures
        s@ == repr_model(r),
    decreases r,
{
    match r.pane {
        Some(pane_id) => LayoutNodeSnapshot::Pane { pane_id },
        None => match r.split {
            None => LayoutNodeSnapshot::Pane { pane_id: PaneId::new(0) },
            Some(LayoutSplitSnapshotRepr::Nary { direction, children }) => {
                let ghost orig = children@;
                let n = children.len();
                let mut rest = children;
                let mut out: Vec<LayoutSplitChildSnapshot> = Vec::new();
                let mut i: usize = 0;
                while i < n
                    invariant
                        0 <= i <= n,
                        n == orig.len(),
                        reprs_ok(orig),
                        rest@ == orig.skip(i as int),
                        snapshot_children_model(out@) == reprs_model(orig.take(i as int)),
                    decreases n - i,
                {
                    let c = rest.remove(0);
                    proof {
                        assert(c == orig[i as int]);
                        assert(rest@ =~= orig.skip(i + 1));
                        assert(orig.take(i + 1).drop_last() =~= orig.take(i as int));
                        assert(orig.take(i + 1).last() == orig[i as int]);
                        lemma_reprs_ok_at(orig, i as int);
                    }
                    let weight = if c.weight >= DEFAULT_CHILD_WEIGHT { c.weight } else { DEFAULT_CHILD_WEIGHT };
                    let node = snapshot_from_repr(c.node);
                    let ghost before = out@;
                    out.push(LayoutSplitChildSnapshot { weight, node });
                    proof {
                        assert(snapshot_children_model(out@) =~= snapshot_children_model(before) + seq![ChildModel { weight, node: node@ }]);
                    }
                    i = i + 1;
                }
                proof {
                    assert(orig.take(n as int) =~= orig);
                    lemma_snapshot_split_model(direction, out);
                }
                LayoutNodeSnapshot::Split { direction, children: out }
            },
            Some(LayoutSplitSnapshotRepr::Binary { direction, first, second }) => {
                let a = snapshot_from_repr(*first);
                let b = snapshot_from_repr(*second);
                let mut out: Vec<LayoutSplitChildSnapshot> = Vec::new();
                out.push(LayoutSplitChildSnapshot { weight: DEFAULT_CHILD_WEIGHT, node: a });
                out.push(LayoutSplitChildSnapshot { weight: DEFAULT_CHILD_WEIGHT, node: b });
                proof {
                    lemma_snapshot_split_model(direction, out);
                    assert(snapshot_children_model(out@) =~= seq![
                        ChildModel { weight: 1, node: repr_model(*first) },
                        ChildModel { weight: 1, node: repr_model(*second) },
                    ]);
                }
                LayoutNodeSnapshot::Split { direction, children: out }
            },
        },
    }
}

/// Whether a written node is well formed, as `from_repr` needs it.
#[verifier::loop_isolation(false)]
pub fn repr_is_ok(r: &LayoutNodeSnapshotRepr) -> (ok: bool)
    ensures
        ok == repr_ok(*r),
    decreases *r,
{
    match &r.pane {
        Some(_) => r.split.is_none(),
        None => match &r.split {
            None => false,
            Some(LayoutSplitSnapshotRepr::Nary { children, .. }) => {
                if children.len() == 0 {
                    return false;
                }
                let mut i: usize = 0;
                while i < children.len()
                    invariant
                        0 <= i <= children@.len(),
                        children@.len() >= 1,
                        reprs_ok(children@.take(i as int)),
                    decreases children@.len() - i,
                {
                    proof {
                        assert(children@.take(i + 1).drop_last() =~= children@.take(i as int));
                        assert(children@.take(i + 1).last() == children@[i as int]);
                    }
                    if !repr_is_ok(&children[i].node) {
                        proof {
                            lemma_reprs_ok_prefix(children@, i as int);
                        }
                        return false;
                    }
                    i = i + 1;
                }
                proof {
                    assert(children@.take(children@.len() as int) =~= children@);
                }
                true
            },
            Some(LayoutSplitSnapshotRepr::Binary { first, second, .. }) => repr_is_ok(first) && repr_is_ok(second),
        },
    }
}

/// A child that is not well formed spoils every list that holds it.
proof fn lemma_reprs_ok_prefix(cs: Seq<LayoutSplitChildSnapshotRepr>, i: int)
    requires
        0 <= i < cs.len(),
        !repr_ok(cs[i].node),
    ensures
        !reprs_ok(cs),
    decreases cs.len(),
{
    if reprs_ok(cs) {
        lemma_reprs_ok_at(cs, i);
    }
}

proof fn lemma_reprs_ok_at(cs: Seq<LayoutSplitChildSnapshotRepr>, i: int)
    requires
        reprs_ok(cs),
        0 <= i < cs.len(),
    ensures
        repr_ok(cs[i].node),
    decreases cs.len(),
{
    if i < cs.len() - 1 {
        lemma_reprs_ok_at(cs.drop_last(), i);
        assert(cs.drop_last()[i] == cs[i]);
    }
}

impl LayoutNodeSnapshot {
    /// Appends the panes of this node, in order, to `out`.
    #[verifier::loop_isolation(false)]
    pub fn collect_panes(&self, out: &mut Vec<PaneId>)
        ensures
            final(out)@ == old(out)@ + self@.panes(),
        decreases self,
    {
        match self {
            LayoutNodeSnapshot::Pane { pane_id } => {
                out.push(*pane_id);
            },
            LayoutNodeSnapshot::Split { direction, children } => {
                proof {
                    lemma_snapshot_split_model(*direction, *children);
                }
                let ghost ms = snapshot_children_model(children@);
                let ghost start = out@;
                let mut i: usize = 0;
                while i < children.len()
                    invariant
                        0 <= i <= children@.len(),
                        ms == snapshot_children_model(children@),
                        out@ == start + models_panes(ms.take(i as int)),
                    decreases children@.len() - i,
                {
                    proof {
                        assert(ms.take(i + 1).drop_last() =~= ms.take(i as int));
                        assert(ms.take(i + 1).last() == ms[i as int]);
                    }
                    children[i].node.collect_panes(out);
                    proof {
                        assert(out@ =~= start + models_panes(ms.take(i + 1)));
                    }
                    i = i + 1;
                }
                proof {
                    assert(ms.take(i as int) =~= ms);
                }
            },
        }
    }

    /// Whether every split of the tree has at least one child.
    #[verifier::loop_isolation(false)]
    pub fn has_no_empty_split(&self) -> (r: bool)
        ensures
            r == no_empty_split(self@),
        decreases self,
    {
        match self {
            LayoutNodeSnapshot::Pane { .. } => true,
            LayoutNodeSnapshot::Split { direction, children } => {
                proof {
                    lemma_snapshot_split_model(*direction, *children);
                }
                let ghost ms = snapshot_children_model(children@);
                if children.len() == 0 {
                    return false;
                }
                let mut i: usize = 0;
                while i < children.len()
                    invariant
                        0 <= i <= children@.len(),
                        ms == snapshot_children_model(children@),
                        children_no_empty_split(ms.take(i as int)),
                    decreases children@.len() - i,
                {
                    proof {
                        assert(ms.take(i + 1).drop_last() =~= ms.take(i as int));
                        assert(ms.take(i + 1).last() == ms[i as int]);
                    }
                    let child_ok = children[i].node.has_no_empty_split();
                    if !child_ok {
                        proof {
                            assert(ms[i as int].node == children@[i as int].node@);
                            if children_no_empty_split(ms) {
                                lemma_children_no_empty_split(ms, i as int);
                            }
                        }
                        return false;
                    }
                    i = i + 1;
                }
                proof {
                    assert(ms.take(i as int) =~= ms);
                }
                true
            },
        }
    }

    /// The panes of this node, in order.
    pub fn pane_ids(&self) -> (ids: Vec<PaneId>)
        ensures
            ids@ == self@.panes(),
    {
        let mut ids: Vec<PaneId> = Vec::new();
        self.collect_panes(&mut ids);
        proof {
            assert(ids@ =~= self@.panes());
        }
        ids
    }

    /// Reads a written node into a snapshot in normal form.
    pub fn from_repr(repr: LayoutNodeSnapshotRepr) -> (s: LayoutNodeSnapshot)
        requires
            repr_ok(repr),
        ensures
            s@ == normalize_model(repr_model(repr)),
            s@.wf(),
    {
        proof {
            lemma_repr_ok(repr);
            law_normalize_idempotent(repr_model(repr));
        }
        normalize_snapshot(snapshot_from_repr(repr))
    }

    /// The written form of this node, splits in the list form.
    #[verifier::loop_isolation(false)]
    pub fn to_repr(&self) -> (r: LayoutNodeSnapshotRepr)
        ensures
            self@.wf() ==> repr_ok(r) && repr_model(r) == self@,
        decreases self,
    {
        match self {
            LayoutNodeSnapshot::Pane { pane_id } => LayoutNodeSnapshotRepr { pane: Some(*pane_id), split: None },
            LayoutNodeSnapshot::Split { direction, children } => {
                proof {
                    lemma_snapshot_split_model(*direction, *children);
                }
                let ghost ms = snapshot_children_model(children@);
                let mut out: Vec<LayoutSplitChildSnapshotRepr> = Vec::new();
                let mut i: usize = 0;
                while i < children.len()
                    invariant
                        0 <= i <= children@.len(),
                        ms == snapshot_children_model(children@),
                        out@.len() == i,
                        self@.wf() ==> reprs_ok(out@) && reprs_model(out@) == ms.take(i as int),
                    decreases children@.len() - i,
                {
                    proof {
                        if self@.wf() {
                            lemma_split_wf_children(*direction, ms);
                            assert(child_model_wf(ms[i as int], *direction));
                        }
                    }
                    let node = children[i].node.to_repr();
                    let ghost before = out@;
                    out.push(LayoutSplitChildSnapshotRepr { weight: children[i].weight, node });
                    proof {
                        assert(out@.drop_last() =~= before);
                        if self@.wf() {
                            assert(ms.take(i + 1) =~= ms.take(i as int) + seq![ms[i as int]]);
                            assert(at_least_one(children@[i as int].weight) == children@[i as int].weight);
                        }
                    }
                    i = i + 1;
                }
                proof {
                    assert(ms.take(i as int) =~= ms);
                }
                LayoutNodeSnapshotRepr {
                    pane: None,
                    split: Some(LayoutSplitSnapshotRepr::Nary { direction: *direction, children: out }),
                }
            },
        }
    }
}

} // verus!
