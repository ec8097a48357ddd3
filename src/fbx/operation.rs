//! Operations that filter rules apply to matched nodes and edges, and what
//! each does to the graph.
use vstd::prelude::*;

use crate::fbx::{EdgeData, Graph, NodeData};
use crate::graph::{
    ids_increasing, mutate_in, mutate_times, node_map, reach, EdgeView, GraphView, NodeView,
    SetVisibility,
};

verus! {

/// The value of a graph of FBX objects.
pub type FbxGraphView = GraphView<NodeData, EdgeData>;

/// An operation on a node: its name and its argument groups.
pub struct NodeOperation {
    pub name: String,
    pub args: Vec<Vec<String>>,
}

/// An operation on an edge: its name and its argument groups.
pub struct EdgeOperation {
    pub name: String,
    pub args: Vec<Vec<String>>,
}

/// What an operation name asks for. Names outside the vocabulary ask for
/// nothing, so that documents written for later versions still apply.
#[derive(PartialEq, Eq, Structural)]
pub enum OperationKind {
    UpdateAttr,
    RemoveAttr,
    Hide,
    Show,
    Unknown,
}

pub open spec fn operation_kind(name: Seq<char>) -> OperationKind {
    if name == "update-attr"@ {
        OperationKind::UpdateAttr
    } else if name == "remove-attr"@ {
        OperationKind::RemoveAttr
    } else if name == "hide"@ {
        OperationKind::Hide
    } else if name == "show"@ {
        OperationKind::Show
    } else {
        OperationKind::Unknown
    }
}

pub fn kind_of(name: &String) -> (r: OperationKind)
    ensures
        r == operation_kind(name@),
{
    if *name == String::from_str("update-attr") {
        OperationKind::UpdateAttr
    } else if *name == String::from_str("remove-attr") {
        OperationKind::RemoveAttr
    } else if *name == String::from_str("hide") {
        OperationKind::Hide
    } else if *name == String::from_str("show") {
        OperationKind::Show
    } else {
        OperationKind::Unknown
    }
}

/// Which nodes a `hide` or `show` reaches from the matched node. Unknown
/// words reach none.
#[derive(PartialEq, Eq, Structural)]
pub enum TargetKind {
    Itself,
    Ascendant,
    Descendant,
    Parents,
    Children,
    Unknown,
}

pub open spec fn target_kind(t: Seq<char>) -> TargetKind {
    if t == "self"@ {
        TargetKind::Itself
    } else if t == "ascendant"@ {
        TargetKind::Ascendant
    } else if t == "descendant"@ {
        TargetKind::Descendant
    } else if t == "parents"@ {
        TargetKind::Parents
    } else if t == "children"@ {
        TargetKind::Children
    } else {
        TargetKind::Unknown
    }
}

pub fn target_kind_of(t: &String) -> (r: TargetKind)
    ensures
        r == target_kind(t@),
{
    if *t == String::from_str("self") {
        TargetKind::Itself
    } else if *t == String::from_str("ascendant") {
        TargetKind::Ascendant
    } else if *t == String::from_str("descendant") {
        TargetKind::Descendant
    } else if *t == String::from_str("parents") {
        TargetKind::Parents
    } else if *t == String::from_str("children") {
        TargetKind::Children
    } else {
        TargetKind::Unknown
    }
}

/// `m` after `update-attr` with `groups`: each group of two or more
/// strings sets its first to its second, in order; shorter groups do nothing.
pub open spec fn updated_styles(m: Map<Seq<char>, Seq<char>>, groups: Seq<Vec<String>>) -> Map<
    Seq<char>,
    Seq<char>,
>
    decreases groups.len(),
{
    if groups.len() == 0 {
        m
    } else {
        let prev = updated_styles(m, groups.drop_last());
        let g = groups.last()@;
        if g.len() >= 2 {
            prev.insert(g[0]@, g[1]@)
        } else {
            prev
        }
    }
}

/// `m` without each of `keys`.
pub open spec fn removed_styles(m: Map<Seq<char>, Seq<char>>, keys: Seq<String>) -> Map<
    Seq<char>,
    Seq<char>,
>
    decreases keys.len(),
{
    if keys.len() == 0 {
        m
    } else {
        removed_styles(m, keys.drop_last()).remove(keys.last()@)
    }
}

/// The node `id` of `nodes` with its styles replaced by `m`, if it exists.
pub open spec fn with_styles(nodes: Seq<NodeView<NodeData>>, id: i64, m: Map<Seq<char>, Seq<char>>) -> Seq<
    NodeView<NodeData>,
> {
    Seq::new(
        nodes.len(),
        |k: int|
            if nodes[k].id == id {
                NodeView { styles: m, ..nodes[k] }
            } else {
                nodes[k]
            },
    )
}

/// The styles of node `id` (empty when there is none).
pub open spec fn styles_of(nodes: Seq<NodeView<NodeData>>, id: i64) -> Map<Seq<char>, Seq<char>> {
    if node_map(nodes).contains_key(id) {
        node_map(nodes)[id].styles
    } else {
        Map::empty()
    }
}

/// The graph after one `hide` (`visible` false) or `show` target word, for
/// the node `id`.
pub open spec fn target_effect(g: FbxGraphView, id: i64, t: Seq<char>, visible: bool) -> FbxGraphView {
    let f = SetVisibility { visible };
    match target_kind(t) {
        TargetKind::Itself => GraphView { nodes: mutate_in(g.nodes, set![id], f), ..g },
        TargetKind::Ascendant => GraphView {
            nodes: mutate_in(g.nodes, reach(g.edges, true, set![id]), f),
            ..g
        },
        TargetKind::Descendant => GraphView {
            nodes: mutate_in(g.nodes, reach(g.edges, false, set![id]), f),
            ..g
        },
        TargetKind::Parents => GraphView {
            nodes: mutate_times(g.nodes, g.edges, true, seq![id], f),
            ..g
        },
        TargetKind::Children => GraphView {
            nodes: mutate_times(g.nodes, g.edges, false, seq![id], f),
            ..g
        },
        TargetKind::Unknown => g,
    }
}

/// The graph after the target words `targets`, in order.
pub open spec fn visibility_effect(
    g: FbxGraphView,
    id: i64,
    targets: Seq<String>,
    visible: bool,
) -> FbxGraphView
    decreases targets.len(),
{
    if targets.len() == 0 {
        g
    } else {
        target_effect(visibility_effect(g, id, targets.drop_last(), visible), id, targets.last()@, visible)
    }
}

/// The graph after operation `op` on the node `id`.
pub open spec fn node_op_effect(g: FbxGraphView, id: i64, op: NodeOperation) -> FbxGraphView {
    match operation_kind(op.name@) {
        OperationKind::UpdateAttr => if node_map(g.nodes).contains_key(id) {
            GraphView {
                nodes: with_styles(g.nodes, id, updated_styles(styles_of(g.nodes, id), op.args@)),
                ..g
            }
        } else {
            g
        },
        OperationKind::RemoveAttr => if op.args@.len() > 0 && node_map(g.nodes).contains_key(id) {
            GraphView {
                nodes: with_styles(g.nodes, id, removed_styles(styles_of(g.nodes, id), op.args@[0]@)),
                ..g
            }
        } else {
            g
        },
        OperationKind::Hide => if op.args@.len() > 0 {
            visibility_effect(g, id, op.args@[0]@, false)
        } else {
            g
        },
        OperationKind::Show => if op.args@.len() > 0 {
            visibility_effect(g, id, op.args@[0]@, true)
        } else {
            g
        },
        OperationKind::Unknown => g,
    }
}

/// The graph after the operations `ops`, in order, on the node `id`.
pub open spec fn node_ops_effect(g: FbxGraphView, id: i64, ops: Seq<NodeOperation>) -> FbxGraphView
    decreases ops.len(),
{
    if ops.len() == 0 {
        g
    } else {
        node_op_effect(node_ops_effect(g, id, ops.drop_last()), id, ops.last())
    }
}

/// The edge after operation `op`; `hide`, `show` and unknown names leave it.
pub open spec fn edge_op_effect(e: EdgeView<EdgeData>, op: EdgeOperation) -> EdgeView<EdgeData> {
    match operation_kind(op.name@) {
        OperationKind::UpdateAttr => EdgeView { styles: updated_styles(e.styles, op.args@), ..e },
        OperationKind::RemoveAttr => if op.args@.len() > 0 {
            EdgeView { styles: removed_styles(e.styles, op.args@[0]@), ..e }
        } else {
            e
        },
        _ => e,
    }
}

/// The edge after the operations `ops`, in order.
pub open spec fn edge_ops_effect(e: EdgeView<EdgeData>, ops: Seq<EdgeOperation>) -> EdgeView<EdgeData>
    decreases ops.len(),
{
    if ops.len() == 0 {
        e
    } else {
        edge_op_effect(edge_ops_effect(e, ops.drop_last()), ops.last())
    }
}

pub proof fn lemma_only_index(nodes: Seq<NodeView<NodeData>>, i: int)
    requires
        ids_increasing(nodes),
        0 <= i < nodes.len(),
    ensures
        forall|k: int| 0 <= k < nodes.len() && k != i ==> nodes[k].id != nodes[i].id,
{
    assert forall|k: int| 0 <= k < nodes.len() && k != i implies nodes[k].id != nodes[i].id by {
        if k < i {
            assert(nodes[k].id < nodes[i].id);
        } else {
            assert(nodes[i].id < nodes[k].id);
        }
    }
}

proof fn lemma_with_styles_at(nodes: Seq<NodeView<NodeData>>, i: int, m: Map<Seq<char>, Seq<char>>)
    requires
        ids_increasing(nodes),
        0 <= i < nodes.len(),
    ensures
        with_styles(nodes, nodes[i].id, m) == nodes.update(i, NodeView { styles: m, ..nodes[i] }),
        ids_increasing(nodes.update(i, NodeView { styles: m, ..nodes[i] })),
        styles_of(nodes, nodes[i].id) == nodes[i].styles,
        node_map(nodes).contains_key(nodes[i].id),
{
    lemma_only_index(nodes, i);
    crate::graph::lemma_node_in_map(nodes, i);
    assert(with_styles(nodes, nodes[i].id, m) =~= nodes.update(i, NodeView { styles: m, ..nodes[i] }));
    let t = nodes.update(i, NodeView { styles: m, ..nodes[i] });
    assert forall|a: int, b: int| 0 <= a < b < t.len() implies #[trigger] t[a].id < #[trigger] t[b].id by {
        assert(nodes[a].id < nodes[b].id);
    }
}

proof fn lemma_mutate_one(nodes: Seq<NodeView<NodeData>>, i: int, visible: bool)
    requires
        ids_increasing(nodes),
        0 <= i < nodes.len(),
    ensures
        mutate_in(nodes, set![nodes[i].id], SetVisibility { visible }) == nodes.update(
            i,
            NodeView { visible, ..nodes[i] },
        ),
        ids_increasing(nodes.update(i, NodeView { visible, ..nodes[i] })),
{
    lemma_only_index(nodes, i);
    assert(mutate_in(nodes, set![nodes[i].id], SetVisibility { visible }) =~= nodes.update(
        i,
        NodeView { visible, ..nodes[i] },
    ));
    let t = nodes.update(i, NodeView { visible, ..nodes[i] });
    assert forall|a: int, b: int| 0 <= a < b < t.len() implies #[trigger] t[a].id < #[trigger] t[b].id by {
        assert(nodes[a].id < nodes[b].id);
    }
}

proof fn lemma_mutate_absent(nodes: Seq<NodeView<NodeData>>, id: i64, visible: bool)
    requires
        !node_map(nodes).contains_key(id),
    ensures
        mutate_in(nodes, set![id], SetVisibility { visible }) == nodes,
{
    assert forall|k: int| 0 <= k < nodes.len() implies nodes[k].id != id by {}
    assert(mutate_in(nodes, set![id], SetVisibility { visible }) =~= nodes);
}

/// Applies `update-attr` or `remove-attr` to the styles `m`.
fn apply_style_operation(name_kind: OperationKind, args: &Vec<Vec<String>>, m: &mut crate::graph::StyleMap)
    ensures
        final(m)@ == match name_kind {
            OperationKind::UpdateAttr => updated_styles(old(m)@, args@),
            OperationKind::RemoveAttr => if args@.len() > 0 {
                removed_styles(old(m)@, args@[0]@)
            } else {
                old(m)@
            },
            _ => old(m)@,
        },
{
    match name_kind {
        OperationKind::UpdateAttr => {
            let mut j: usize = 0;
            while j < args.len()
                invariant
                    j <= args@.len(),
                    m@ == updated_styles(old(m)@, args@.take(j as int)),
                decreases args@.len() - j,
            {
                let group = &args[j];
                if group.len() >= 2 {
                    m.insert(group[0].clone(), group[1].clone());
                }
                proof {
                    assert(args@.take(j + 1).drop_last() =~= args@.take(j as int));
                }
                j = j + 1;
            }
            proof {
                assert(args@.take(args@.len() as int) =~= args@);
            }
        },
        OperationKind::RemoveAttr => {
            if args.len() > 0 {
                let keys = &args[0];
                let mut j: usize = 0;
                while j < keys.len()
                    invariant
                        j <= keys@.len(),
                        keys@ == args@[0]@,
                        m@ == removed_styles(old(m)@, keys@.take(j as int)),
                    decreases keys@.len() - j,
                {
                    m.remove(&keys[j]);
                    proof {
                        assert(keys@.take(j + 1).drop_last() =~= keys@.take(j as int));
                    }
                    j = j + 1;
                }
                proof {
                    assert(keys@.take(keys@.len() as int) =~= keys@);
                }
            }
        },
        _ => {},
    }
}

/// Applies one target word of `hide` or `show` for the node `id`.
fn apply_target(graph: &mut Graph, id: i64, target: &String, visible: bool)
    requires
        old(graph).wf(),
    ensures
        final(graph).wf(),
        final(graph)@ == target_effect(old(graph)@, id, target@, visible),
{
    let f = SetVisibility { visible };
    let seeds: Vec<i64> = vec![id];
    assert(seeds@ =~= seq![id]);
    assert(seeds@.to_set() =~= set![id]);
    let ghost g0 = graph@;
    match target_kind_of(target) {
        TargetKind::Itself => {
            match graph.node_index(id) {
                Some(i) => {
                    proof {
                        lemma_mutate_one(g0.nodes, i as int, visible);
                    }
                    graph.nodes[i].visible = visible;
                    assert(graph@.nodes =~= g0.nodes.update(i as int, NodeView { visible, ..g0.nodes[i as int] }));
                },
                None => {
                    proof {
                        lemma_mutate_absent(g0.nodes, id, visible);
                    }
                },
            }
        },
        TargetKind::Ascendant => graph.map_ascendant(seeds.as_slice(), &f),
        TargetKind::Descendant => graph.map_descendant(seeds.as_slice(), &f),
        TargetKind::Parents => graph.map_parents(seeds.as_slice(), &f),
        TargetKind::Children => graph.map_children(seeds.as_slice(), &f),
        TargetKind::Unknown => {},
    }
}

/// Applies one operation to the node `id`.
pub fn apply_node_operation(op: &NodeOperation, id: i64, graph: &mut Graph)
    requires
        old(graph).wf(),
    ensures
        final(graph).wf(),
        final(graph)@ == node_op_effect(old(graph)@, id, *op),
{
    let ghost g0 = graph@;
    let kind = kind_of(&op.name);
    match kind {
        OperationKind::UpdateAttr | OperationKind::RemoveAttr => {
            match graph.node_index(id) {
                Some(i) => {
                    apply_style_operation(kind, &op.args, &mut graph.nodes[i].styles);
                    proof {
                        let m = graph@.nodes[i as int].styles;
                        lemma_with_styles_at(g0.nodes, i as int, m);
                        assert(graph@.nodes =~= g0.nodes.update(i as int, NodeView { styles: m, ..g0.nodes[i as int] }));
                        if op.args@.len() == 0 && kind == OperationKind::RemoveAttr {
                            assert(graph@.nodes =~= g0.nodes);
                        }
                        assert(graph@ == node_op_effect(g0, id, *op));
                    }
                },
                None => {},
            }
        },
        OperationKind::Hide | OperationKind::Show => {
            let visible = match kind {
                OperationKind::Show => true,
                _ => false,
            };
            if op.args.len() > 0 {
                let targets = &op.args[0];
                let mut t: usize = 0;
                while t < targets.len()
                    invariant
                        graph.wf(),
                        t <= targets@.len(),
                        op.args@.len() > 0,
                        targets@ == op.args@[0]@,
                        graph@ == visibility_effect(g0, id, targets@.take(t as int), visible),
                    decreases targets@.len() - t,
                {
                    apply_target(graph, id, &targets[t], visible);
                    proof {
                        assert(targets@.take(t + 1).drop_last() =~= targets@.take(t as int));
                    }
                    t = t + 1;
                }
                proof {
                    assert(targets@.take(targets@.len() as int) =~= targets@);
                }
            }
        },
        OperationKind::Unknown => {},
    }
}

/// Applies one operation to an edge.
pub fn apply_edge_operation_to(op: &EdgeOperation, edge: &mut crate::fbx::Edge)
    ensures
        final(edge)@ == edge_op_effect(old(edge)@, *op),
{
    let kind = kind_of(&op.name);
    apply_style_operation(kind, &op.args, &mut edge.styles);
}


/// `op` is `show` or `hide` whose first argument group is exactly `["self"]`.
pub open spec fn is_self_toggle(op: NodeOperation) -> bool {
    &&& (op.name@ == "show"@ || op.name@ == "hide"@)
    &&& op.args@.len() > 0
    &&& op.args@[0]@.len() == 1
    &&& op.args@[0]@[0]@ == "self"@
}

proof fn lemma_self_toggle_effect(g: FbxGraphView, id: i64, op: NodeOperation)
    requires
        is_self_toggle(op),
    ensures
        node_op_effect(g, id, op) == (GraphView {
            nodes: mutate_in(g.nodes, set![id], SetVisibility { visible: op.name@ == "show"@ }),
            ..g
        }),
{
    reveal_strlit("show");
    reveal_strlit("hide");
    reveal_strlit("update-attr");
    reveal_strlit("remove-attr");
    assert(op.name@ != "update-attr"@) by {
        if op.name@ == "show"@ {
            assert(op.name@.len() != "update-attr"@.len());
        } else {
            assert(op.name@.len() != "update-attr"@.len());
        }
    }
    assert(op.name@ != "remove-attr"@) by {
        assert(op.name@.len() != "remove-attr"@.len());
    }
    assert("show"@ != "hide"@) by {
        assert("show"@[0] != "hide"@[0]);
    }
    let targets = op.args@[0]@;
    let b = op.name@ == "show"@;
    assert(targets.drop_last() =~= Seq::<String>::empty());
    assert(visibility_effect(g, id, targets.drop_last(), b) == g);
    assert(targets.last()@ == "self"@);
    assert(target_kind("self"@) == TargetKind::Itself);
    assert(visibility_effect(g, id, targets, b) == target_effect(g, id, "self"@, b));
    if b {
        assert(operation_kind(op.name@) == OperationKind::Show);
    } else {
        assert(operation_kind(op.name@) == OperationKind::Hide);
    }
}

/// Showing a node itself and then hiding it, or hiding and then showing it,
/// changes that node's visibility flag alone, to what the second operation
/// says: no style, identifier, payload or edge changes, and no other node.
pub proof fn lemma_show_hide_self(g: FbxGraphView, id: i64, first: NodeOperation, second: NodeOperation)
    requires
        is_self_toggle(first),
        is_self_toggle(second),
    ensures
        node_op_effect(node_op_effect(g, id, first), id, second) == (GraphView {
            nodes: mutate_in(g.nodes, set![id], SetVisibility { visible: second.name@ == "show"@ }),
            ..g
        }),
        forall|i: int|
            0 <= i < g.nodes.len() ==> (#[trigger] node_op_effect(
                node_op_effect(g, id, first),
                id,
                second,
            ).nodes[i]).styles == g.nodes[i].styles,
{
    lemma_self_toggle_effect(g, id, first);
    let h = node_op_effect(g, id, first);
    lemma_self_toggle_effect(h, id, second);
    let b = second.name@ == "show"@;
    assert(mutate_in(h.nodes, set![id], SetVisibility { visible: b }) =~= mutate_in(
        g.nodes,
        set![id],
        SetVisibility { visible: b },
    ));
}

proof fn lemma_updated_styles_short(m: Map<Seq<char>, Seq<char>>, groups: Seq<Vec<String>>)
    requires
        forall|i: int| 0 <= i < groups.len() ==> (#[trigger] groups[i])@.len() < 2,
    ensures
        updated_styles(m, groups) == m,
    decreases groups.len(),
{
    if groups.len() > 0 {
        assert(groups.last() == groups[groups.len() - 1]);
        lemma_updated_styles_short(m, groups.drop_last());
    }
}

proof fn lemma_removed_styles_absent(m: Map<Seq<char>, Seq<char>>, keys: Seq<String>)
    requires
        forall|i: int| 0 <= i < keys.len() ==> !m.contains_key((#[trigger] keys[i])@),
    ensures
        removed_styles(m, keys) == m,
    decreases keys.len(),
{
    if keys.len() > 0 {
        assert(keys.last() == keys[keys.len() - 1]);
        lemma_removed_styles_absent(m, keys.drop_last());
        assert(m.remove(keys.last()@) =~= m);
    }
}

proof fn lemma_same_styles(nodes: Seq<NodeView<NodeData>>, id: i64)
    requires
        ids_increasing(nodes),
    ensures
        with_styles(nodes, id, styles_of(nodes, id)) == nodes,
{
    assert forall|k: int| 0 <= k < nodes.len() && nodes[k].id == id implies styles_of(nodes, id)
        == nodes[k].styles by {
        crate::graph::lemma_node_in_map(nodes, k);
    }
    assert(with_styles(nodes, id, styles_of(nodes, id)) =~= nodes);
}

/// `update-attr` whose argument groups all hold fewer than two strings
/// leaves the graph as it was.
pub proof fn lemma_update_attr_short_groups(g: FbxGraphView, id: i64, op: NodeOperation)
    requires
        ids_increasing(g.nodes),
        operation_kind(op.name@) == OperationKind::UpdateAttr,
        forall|i: int| 0 <= i < op.args@.len() ==> (#[trigger] op.args@[i])@.len() < 2,
    ensures
        node_op_effect(g, id, op) == g,
{
    lemma_updated_styles_short(styles_of(g.nodes, id), op.args@);
    lemma_same_styles(g.nodes, id);
}

/// `remove-attr` naming only keys that the node does not have leaves the
/// graph as it was.
pub proof fn lemma_remove_attr_absent(g: FbxGraphView, id: i64, op: NodeOperation)
    requires
        ids_increasing(g.nodes),
        operation_kind(op.name@) == OperationKind::RemoveAttr,
        op.args@.len() > 0 ==> forall|i: int|
            0 <= i < op.args@[0]@.len() ==> !styles_of(g.nodes, id).contains_key(
                (#[trigger] op.args@[0]@[i])@,
            ),
    ensures
        node_op_effect(g, id, op) == g,
{
    if op.args@.len() > 0 {
        lemma_removed_styles_absent(styles_of(g.nodes, id), op.args@[0]@);
        lemma_same_styles(g.nodes, id);
    }
}

/// On an edge too, `update-attr` with only short groups and `remove-attr`
/// of keys it does not have leave it as it was.
pub proof fn lemma_edge_attr_noops(e: EdgeView<EdgeData>, op: EdgeOperation)
    ensures
        operation_kind(op.name@) == OperationKind::UpdateAttr && (forall|i: int|
            0 <= i < op.args@.len() ==> (#[trigger] op.args@[i])@.len() < 2) ==> edge_op_effect(e, op)
            == e,
        operation_kind(op.name@) == OperationKind::RemoveAttr && (op.args@.len() > 0 ==> forall|i: int|
            0 <= i < op.args@[0]@.len() ==> !e.styles.contains_key((#[trigger] op.args@[0]@[i])@))
            ==> edge_op_effect(e, op) == e,
{
    if operation_kind(op.name@) == OperationKind::UpdateAttr && (forall|i: int|
        0 <= i < op.args@.len() ==> (#[trigger] op.args@[i])@.len() < 2) {
        lemma_updated_styles_short(e.styles, op.args@);
    }
    if operation_kind(op.name@) == OperationKind::RemoveAttr && op.args@.len() > 0 && (forall|i: int|
        0 <= i < op.args@[0]@.len() ==> !e.styles.contains_key((#[trigger] op.args@[0]@[i])@)) {
        lemma_removed_styles_absent(e.styles, op.args@[0]@);
    }
}

} // verus!
