//! The graph model: nodes keyed by identifier, edges as parent/child pairs,
//! per-entity styles and the three group-level style defaults.
use vstd::prelude::*;

mod styles;
mod output;
mod traverse;

pub use self::traverse::{
    apply_times, hits, is_walk, lemma_reach_least_closed, linked, mutate_in, mutate_times, reach, seed_hits, step,
    NodeMutation, SetVisibility,
};

pub use self::output::{
    attr_text, attrs_text, beginning_text, edge_shown, edge_text, edges_text, ending_text,
    entity_attrs, group_text, joined, node_text, nodes_text,
};
pub use self::styles::{keys_unique, pairs_to_map, view_pairs, StyleMap};


verus! {

/// A vertex of the graph. Hiding a node clears `visible`; nodes are never removed.
pub struct Node<T> {
    pub id: i64,
    pub visible: bool,
    pub styles: StyleMap,
    pub data: T,
}

/// The mathematical value of a node.
pub struct NodeView<T> {
    pub id: i64,
    pub visible: bool,
    pub styles: Map<Seq<char>, Seq<char>>,
    pub data: T,
}

impl<T> View for Node<T> {
    type V = NodeView<T>;

    open spec fn view(&self) -> NodeView<T> {
        NodeView { id: self.id, visible: self.visible, styles: self.styles@, data: self.data }
    }
}

/// A connection from `parent` to `child`; either end may name an identifier
/// that has no node.
pub struct Edge<T> {
    pub parent: i64,
    pub child: i64,
    pub styles: StyleMap,
    pub data: T,
}

/// The mathematical value of an edge.
pub struct EdgeView<T> {
    pub parent: i64,
    pub child: i64,
    pub styles: Map<Seq<char>, Seq<char>>,
    pub data: T,
}

impl<T> View for Edge<T> {
    type V = EdgeView<T>;

    open spec fn view(&self) -> EdgeView<T> {
        EdgeView { parent: self.parent, child: self.child, styles: self.styles@, data: self.data }
    }
}

/// A named directed graph. `nodes` is kept ordered by strictly increasing
/// identifier, so that each identifier has at most one node.
pub struct Graph<N, E> {
    pub name: String,
    pub graph_styles: StyleMap,
    pub node_styles: StyleMap,
    pub edge_styles: StyleMap,
    pub nodes: Vec<Node<N>>,
    pub edges: Vec<Edge<E>>,
}

/// The mathematical value of a graph.
pub struct GraphView<N, E> {
    pub name: Seq<char>,
    pub graph_styles: Map<Seq<char>, Seq<char>>,
    pub node_styles: Map<Seq<char>, Seq<char>>,
    pub edge_styles: Map<Seq<char>, Seq<char>>,
    pub nodes: Seq<NodeView<N>>,
    pub edges: Seq<EdgeView<E>>,
}

impl<N, E> View for Graph<N, E> {
    type V = GraphView<N, E>;

    open spec fn view(&self) -> GraphView<N, E> {
        GraphView {
            name: self.name@,
            graph_styles: self.graph_styles@,
            node_styles: self.node_styles@,
            edge_styles: self.edge_styles@,
            nodes: self.nodes@.map_values(|n: Node<N>| n@),
            edges: self.edges@.map_values(|e: Edge<E>| e@),
        }
    }
}

/// Identifiers strictly increase along the sequence.
pub open spec fn ids_increasing<N>(nodes: Seq<NodeView<N>>) -> bool {
    forall|i: int, j: int|
        0 <= i < j < nodes.len() ==> #[trigger] nodes[i].id < #[trigger] nodes[j].id
}

/// The nodes of a sequence, keyed by identifier.
pub open spec fn node_map<N>(nodes: Seq<NodeView<N>>) -> Map<i64, NodeView<N>> {
    Map::new(
        |id: i64| exists|i: int| 0 <= i < nodes.len() && nodes[i].id == id,
        |id: i64| nodes[choose|i: int| 0 <= i < nodes.len() && nodes[i].id == id],
    )
}

pub proof fn lemma_node_in_map<N>(nodes: Seq<NodeView<N>>, i: int)
    requires
        ids_increasing(nodes),
        0 <= i < nodes.len(),
    ensures
        node_map(nodes).contains_key(nodes[i].id),
        node_map(nodes)[nodes[i].id] == nodes[i],
{
    let id = nodes[i].id;
    assert(exists|j: int| 0 <= j < nodes.len() && nodes[j].id == id);
    let j = choose|j: int| 0 <= j < nodes.len() && nodes[j].id == id;
    if j < i {
        assert(nodes[j].id < nodes[i].id);
    } else if i < j {
        assert(nodes[i].id < nodes[j].id);
    }
}

impl<N, E> GraphView<N, E> {
    /// The nodes keyed by identifier.
    pub open spec fn node_map(self) -> Map<i64, NodeView<N>> {
        node_map(self.nodes)
    }
}

impl<T> Node<T> {
    pub fn new_with_data(id: i64, data: T) -> (r: Node<T>)
        ensures
            r.id == id,
            r.visible,
            r.styles@ == Map::<Seq<char>, Seq<char>>::empty(),
            r.data == data,
    {
        Node { id, visible: true, styles: StyleMap::new(), data }
    }

    pub fn is_visible(&self) -> (r: bool)
        ensures
            r == self.visible,
    {
        self.visible
    }
}

impl<T: Default> Node<T> {
    /// A visible node without styles, holding the default payload.
    pub fn new(id: i64) -> (r: Node<T>)
        ensures
            r.id == id,
            r.visible,
            r.styles@ == Map::<Seq<char>, Seq<char>>::empty(),
            call_ensures(T::default, (), r.data),
    {
        Node::new_with_data(id, T::default())
    }
}

impl<T> Edge<T> {
    pub fn new_with_data(parent: i64, child: i64, data: T) -> (r: Edge<T>)
        ensures
            r.parent == parent,
            r.child == child,
            r.styles@ == Map::<Seq<char>, Seq<char>>::empty(),
            r.data == data,
    {
        Edge { parent, child, styles: StyleMap::new(), data }
    }
}

impl<T: Default> Edge<T> {
    /// An edge without styles, holding the default payload.
    pub fn new(parent: i64, child: i64) -> (r: Edge<T>)
        ensures
            r.parent == parent,
            r.child == child,
            r.styles@ == Map::<Seq<char>, Seq<char>>::empty(),
            call_ensures(T::default, (), r.data),
    {
        Edge::new_with_data(parent, child, T::default())
    }
}

impl<N, E> Graph<N, E> {
    /// Each identifier has at most one node, and nodes are ordered by identifier.
    pub open spec fn wf(&self) -> bool {
        ids_increasing(self@.nodes)
    }

    /// An empty graph.
    pub fn new(name: String) -> (r: Graph<N, E>)
        ensures
            r.wf(),
            r@.name == name@,
            r@.graph_styles == Map::<Seq<char>, Seq<char>>::empty(),
            r@.node_styles == Map::<Seq<char>, Seq<char>>::empty(),
            r@.edge_styles == Map::<Seq<char>, Seq<char>>::empty(),
            r@.nodes.len() == 0,
            r@.edges.len() == 0,
    {
        let r = Graph {
            name,
            graph_styles: StyleMap::new(),
            node_styles: StyleMap::new(),
            edge_styles: StyleMap::new(),
            nodes: Vec::new(),
            edges: Vec::new(),
        };
        assert(r@.nodes =~= Seq::<NodeView<N>>::empty());
        r
    }

    /// Index of the node with identifier `id`.
    pub fn node_index(&self, id: i64) -> (r: Option<usize>)
        requires
            self.wf(),
        ensures
            match r {
                Some(i) => i < self@.nodes.len() && self@.nodes[i as int].id == id,
                None => !self@.node_map().contains_key(id),
            },
    {
        let mut lo: usize = 0;
        let mut hi: usize = self.nodes.len();
        while lo < hi
            invariant
                self.wf(),
                lo <= hi <= self@.nodes.len(),
                forall|i: int| 0 <= i < lo ==> self@.nodes[i].id < id,
                forall|i: int| hi <= i < self@.nodes.len() ==> self@.nodes[i].id > id,
            decreases hi - lo,
        {
            let mid = lo + (hi - lo) / 2;
            let m = self.nodes[mid].id;
            proof {
                let ns = self@.nodes;
                assert(ns[mid as int].id == m);
                assert forall|i: int| 0 <= i < mid implies ns[i].id < m by {
                    assert(ns[i].id < ns[mid as int].id);
                }
                assert forall|i: int| mid < i < ns.len() implies ns[i].id > m by {
                    assert(ns[mid as int].id < ns[i].id);
                }
            }
            if m == id {
                return Some(mid);
            } else if m < id {
                lo = mid + 1;
            } else {
                hi = mid;
            }
        }
        None
    }

    /// The node with identifier `id`, if there is one.
    pub fn node(&self, id: i64) -> (r: Option<&Node<N>>)
        requires
            self.wf(),
        ensures
            match r {
                Some(n) => self@.node_map().contains_key(id) && n@ == self@.node_map()[id],
                None => !self@.node_map().contains_key(id),
            },
    {
        match self.node_index(id) {
            Some(i) => {
                proof {
                    lemma_node_in_map(self@.nodes, i as int);
                }
                Some(&self.nodes[i])
            },
            None => None,
        }
    }

    /// Inserts `node`, replacing the node with the same identifier, and
    /// returns the node it replaced.
    pub fn add_node(&mut self, node: Node<N>) -> (r: Option<Node<N>>)
        requires
            old(self).wf(),
        ensures
            final(self).wf(),
            final(self)@.node_map() == old(self)@.node_map().insert(node.id, node@),
            final(self)@ == (GraphView { nodes: final(self)@.nodes, ..old(self)@ }),
            match r {
                Some(p) => old(self)@.node_map().contains_key(node.id) && p@ == old(self)@.node_map()[node.id],
                None => !old(self)@.node_map().contains_key(node.id),
            },
    {
        let ghost old_nodes = self@.nodes;
        let id = node.id;
        let mut lo: usize = 0;
        let mut hi: usize = self.nodes.len();
        while lo < hi
            invariant
                self.wf(),
                self@ == old(self)@,
                lo <= hi <= self@.nodes.len(),
                forall|i: int| 0 <= i < lo ==> self@.nodes[i].id < id,
                forall|i: int| hi <= i < self@.nodes.len() ==> self@.nodes[i].id >= id,
            decreases hi - lo,
        {
            let mid = lo + (hi - lo) / 2;
            let m = self.nodes[mid].id;
            proof {
                let ns = self@.nodes;
                assert(ns[mid as int].id == m);
                assert forall|i: int| 0 <= i < mid implies ns[i].id < m by {
                    assert(ns[i].id < ns[mid as int].id);
                }
                assert forall|i: int| mid < i < ns.len() implies ns[i].id > m by {
                    assert(ns[mid as int].id < ns[i].id);
                }
            }
            if m < id {
                lo = mid + 1;
            } else {
                hi = mid;
            }
        }
        let ghost nv = node@;
        if lo < self.nodes.len() && self.nodes[lo].id == id {
            proof {
                lemma_node_in_map(old_nodes, lo as int);
            }
            let mut n = node;
            std::mem::swap(&mut self.nodes[lo], &mut n);
            proof {
                assert(self@.nodes =~= old_nodes.update(lo as int, nv));
                lemma_replace_node(old_nodes, lo as int, nv);
            }
            Some(n)
        } else {
            proof {
                if lo < old_nodes.len() {
                    assert(old_nodes[lo as int].id != id);
                }
                if node_map(old_nodes).contains_key(id) {
                    let j = choose|j: int| 0 <= j < old_nodes.len() && old_nodes[j].id == id;
                    if j > lo {
                        assert(old_nodes[lo as int].id < old_nodes[j].id);
                    }
                    assert(false);
                }
            }
            self.nodes.insert(lo, node);
            proof {
                assert(self@.nodes =~= old_nodes.insert(lo as int, nv));
                lemma_insert_node(old_nodes, lo as int, nv);
            }
            None
        }
    }

    /// Appends `edge`; its ends need not name existing nodes.
    pub fn add_edge(&mut self, edge: Edge<E>)
        ensures
            final(self)@ == (GraphView { edges: old(self)@.edges.push(edge@), ..old(self)@ }),
    {
        let ghost ev = edge@;
        self.edges.push(edge);
        assert(self@.edges =~= old(self)@.edges.push(ev));
    }
}

proof fn lemma_replace_node<N>(nodes: Seq<NodeView<N>>, i: int, n: NodeView<N>)
    requires
        ids_increasing(nodes),
        0 <= i < nodes.len(),
        nodes[i].id == n.id,
    ensures
        ids_increasing(nodes.update(i, n)),
        node_map(nodes.update(i, n)) == node_map(nodes).insert(n.id, n),
{
    let t = nodes.update(i, n);
    assert(ids_increasing(t)) by {
        assert forall|a: int, b: int| 0 <= a < b < t.len() implies #[trigger] t[a].id
            < #[trigger] t[b].id by {
            assert(nodes[a].id < nodes[b].id);
        }
    }
    let m = node_map(nodes).insert(n.id, n);
    assert forall|x: i64| #[trigger] node_map(t).contains_key(x) <==> m.contains_key(x) by {
        if exists|j: int| 0 <= j < nodes.len() && nodes[j].id == x {
            let j = choose|j: int| 0 <= j < nodes.len() && nodes[j].id == x;
            assert(t[j].id == x);
        }
        if exists|j: int| 0 <= j < t.len() && t[j].id == x {
            let j = choose|j: int| 0 <= j < t.len() && t[j].id == x;
            assert(nodes[j].id == x);
        }
        if x == n.id {
            assert(t[i].id == x);
        }
    }
    assert forall|x: i64| node_map(t).contains_key(x) implies #[trigger] node_map(t)[x] == m[x] by {
        let j = choose|j: int| 0 <= j < t.len() && t[j].id == x;
        lemma_node_in_map(t, j);
        if j != i {
            lemma_node_in_map(nodes, j);
        }
    }
    assert(node_map(t) =~= m);
}

proof fn lemma_insert_node<N>(nodes: Seq<NodeView<N>>, i: int, n: NodeView<N>)
    requires
        ids_increasing(nodes),
        0 <= i <= nodes.len(),
        forall|j: int| 0 <= j < i ==> nodes[j].id < n.id,
        forall|j: int| i <= j < nodes.len() ==> nodes[j].id > n.id,
    ensures
        ids_increasing(nodes.insert(i, n)),
        node_map(nodes.insert(i, n)) == node_map(nodes).insert(n.id, n),
{
    let t = nodes.insert(i, n);
    assert(ids_increasing(t)) by {
        assert forall|a: int, b: int| 0 <= a < b < t.len() implies #[trigger] t[a].id
            < #[trigger] t[b].id by {
            if a < i && b > i {
                assert(nodes[b - 1].id > n.id);
            } else if a > i {
                assert(nodes[a - 1].id < nodes[b - 1].id);
            } else if b < i {
                assert(nodes[a].id < nodes[b].id);
            }
        }
    }
    let m = node_map(nodes).insert(n.id, n);
    assert forall|x: i64| #[trigger] node_map(t).contains_key(x) <==> m.contains_key(x) by {
        if exists|j: int| 0 <= j < nodes.len() && nodes[j].id == x {
            let j = choose|j: int| 0 <= j < nodes.len() && nodes[j].id == x;
            if j < i {
                assert(t[j].id == x);
            } else {
                assert(t[j + 1].id == x);
            }
        }
        if exists|j: int| 0 <= j < t.len() && t[j].id == x {
            let j = choose|j: int| 0 <= j < t.len() && t[j].id == x;
            if j < i {
                assert(nodes[j].id == x);
            } else if j > i {
                assert(nodes[j - 1].id == x);
            }
        }
        if x == n.id {
            assert(t[i].id == x);
        }
    }
    assert forall|x: i64| node_map(t).contains_key(x) implies #[trigger] node_map(t)[x] == m[x] by {
        let j = choose|j: int| 0 <= j < t.len() && t[j].id == x;
        lemma_node_in_map(t, j);
        if j < i {
            lemma_node_in_map(nodes, j);
        } else if j > i {
            lemma_node_in_map(nodes, j - 1);
        }
    }
    assert(node_map(t) =~= m);
}

} // verus!
