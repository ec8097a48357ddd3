//! The graph written in the Graphviz `dot` language.
use vstd::prelude::*;

use super::{keys_unique, Edge, Graph, Node, StyleMap};
use crate::text::{decimal, decimal_string, escape_quotes, style_escape};

verus! {

/// `items` with `sep` between each two.
pub open spec fn joined(items: Seq<Seq<char>>, sep: Seq<char>) -> Seq<char>
    decreases items.len(),
{
    if items.len() == 0 {
        Seq::empty()
    } else if items.len() == 1 {
        items[0]
    } else {
        joined(items.drop_last(), sep) + sep + items.last()
    }
}

/// One attribute, `key="value"`, with quotes in both doubled.
pub open spec fn attr_text(p: (Seq<char>, Seq<char>)) -> Seq<char> {
    escape_quotes(p.0) + "=\""@ + escape_quotes(p.1) + "\""@
}

/// The attributes `ps`, each after `indent`, with `sep` between them.
pub open spec fn attrs_text(ps: Seq<(Seq<char>, Seq<char>)>, indent: Seq<char>, sep: Seq<char>) -> Seq<char> {
    joined(ps.map_values(|p: (Seq<char>, Seq<char>)| indent + attr_text(p)), sep)
}

/// The attribute list of a node or edge line: nothing when there are no styles.
pub open spec fn entity_attrs(ps: Seq<(Seq<char>, Seq<char>)>) -> Seq<char> {
    if ps.len() == 0 {
        Seq::empty()
    } else {
        " ["@ + attrs_text(ps, ""@, ", "@) + "]"@
    }
}

/// The line of a node.
pub open spec fn node_text<N>(n: Node<N>) -> Seq<char> {
    "\t"@ + decimal(n.id as int) + entity_attrs(n.styles.pairs()) + "\n"@
}

/// The line of an edge.
pub open spec fn edge_text<E>(e: Edge<E>) -> Seq<char> {
    "\t"@ + decimal(e.parent as int) + " -> "@ + decimal(e.child as int) + entity_attrs(e.styles.pairs())
        + "\n"@
}

/// The block of group defaults `label`: nothing when there are none.
pub open spec fn group_text(label: Seq<char>, ps: Seq<(Seq<char>, Seq<char>)>) -> Seq<char> {
    if ps.len() == 0 {
        Seq::empty()
    } else {
        "\t"@ + label + " [\n"@ + attrs_text(ps, "\t\t"@, "\n, "@) + "\n\t]\n"@
    }
}

/// The opening of the graph, with its three blocks of defaults.
pub open spec fn beginning_text<N, E>(g: Graph<N, E>) -> Seq<char> {
    "digraph \""@ + g.name@ + "\" {\n"@ + group_text("graph"@, g.graph_styles.pairs()) + group_text(
        "node"@,
        g.node_styles.pairs(),
    ) + group_text("edge"@, g.edge_styles.pairs())
}

/// The closing of the graph.
pub open spec fn ending_text() -> Seq<char> {
    "}\n"@
}

/// The lines of the nodes of `nodes`, of the visible ones only when `only_visible`.
pub open spec fn nodes_text<N>(nodes: Seq<Node<N>>, only_visible: bool) -> Seq<char>
    decreases nodes.len(),
{
    if nodes.len() == 0 {
        Seq::empty()
    } else {
        nodes_text(nodes.drop_last(), only_visible) + if !only_visible || nodes.last().visible {
            node_text(nodes.last())
        } else {
            Seq::empty()
        }
    }
}

/// Whether an edge is written when only visible nodes are: each end's node
/// is visible, an end without a node counting as `unregistered_visible`.
pub open spec fn edge_shown<N, E>(g: Graph<N, E>, e: Edge<E>, unregistered_visible: bool) -> bool {
    let m = g@.node_map();
    &&& (if m.contains_key(e.parent) { m[e.parent].visible } else { unregistered_visible })
    &&& (if m.contains_key(e.child) { m[e.child].visible } else { unregistered_visible })
}

/// The lines of the edges of `edges`; of those that `edge_shown` admits
/// only, when `only_visible`.
pub open spec fn edges_text<N, E>(
    g: Graph<N, E>,
    edges: Seq<Edge<E>>,
    only_visible: bool,
    unregistered_visible: bool,
) -> Seq<char>
    decreases edges.len(),
{
    if edges.len() == 0 {
        Seq::empty()
    } else {
        edges_text(g, edges.drop_last(), only_visible, unregistered_visible) + if !only_visible
            || edge_shown(g, edges.last(), unregistered_visible) {
            edge_text(edges.last())
        } else {
            Seq::empty()
        }
    }
}

/// Appends the attributes of `styles` to `out`, each after `indent`, with
/// `sep` between them.
fn push_attrs(out: &mut String, styles: &StyleMap, indent: &str, sep: &str)
    ensures
        final(out)@ == old(out)@ + attrs_text(styles.pairs(), indent@, sep@),
        keys_unique(styles.pairs()),
{
    let ghost ps = styles.pairs();
    let ghost items = ps.map_values(|p: (Seq<char>, Seq<char>)| indent@ + attr_text(p));
    let n = styles.len();
    let mut i: usize = 0;
    proof {
        assert(items.take(0) =~= Seq::<Seq<char>>::empty());
        assert(old(out)@ + joined(items.take(0), sep@) =~= old(out)@);
    }
    while i < n
        invariant
            n == ps.len(),
            ps == styles.pairs(),
            items == ps.map_values(|p: (Seq<char>, Seq<char>)| indent@ + attr_text(p)),
            i <= n,
            out@ == old(out)@ + joined(items.take(i as int), sep@),
        decreases n - i,
    {
        let (k, v) = styles.entry_at(i);
        let ghost before = out@;
        if i > 0 {
            out.append(sep);
        }
        out.append(indent);
        let ek = style_escape(k.as_str());
        out.append(ek.as_str());
        out.append("=\"");
        let ev = style_escape(v.as_str());
        out.append(ev.as_str());
        out.append("\"");
        proof {
            assert(items[i as int] == indent@ + attr_text(ps[i as int]));
            assert(items.take(i + 1).drop_last() =~= items.take(i as int));
            assert(items.take(i + 1).last() == items[i as int]);
            if i > 0 {
                assert(out@ =~= before + sep@ + items[i as int]);
            } else {
                assert(items.take(1) =~= seq![items[0]]);
                assert(out@ =~= before + items[i as int]);
            }
        }
        i = i + 1;
    }
    proof {
        assert(items.take(n as int) =~= items);
    }
}

/// Appends the attribute list of a node or edge line.
fn push_entity_attrs(out: &mut String, styles: &StyleMap)
    ensures
        final(out)@ == old(out)@ + entity_attrs(styles.pairs()),
        keys_unique(styles.pairs()),
{
    if styles.len() > 0 {
        out.append(" [");
        push_attrs(out, styles, "", ", ");
        out.append("]");
        assert(out@ =~= old(out)@ + entity_attrs(styles.pairs()));
    } else {
        assert(out@ =~= old(out)@ + entity_attrs(styles.pairs()));
    }
}

/// Appends the block of group defaults `label`.
fn push_group(out: &mut String, label: &str, styles: &StyleMap)
    ensures
        final(out)@ == old(out)@ + group_text(label@, styles.pairs()),
        keys_unique(styles.pairs()),
{
    if styles.len() > 0 {
        out.append("\t");
        out.append(label);
        out.append(" [\n");
        push_attrs(out, styles, "\t\t", "\n, ");
        out.append("\n\t]\n");
        assert(out@ =~= old(out)@ + group_text(label@, styles.pairs()));
    } else {
        assert(out@ =~= old(out)@ + group_text(label@, styles.pairs()));
    }
}

impl<T> Node<T> {
    /// The node's line: its identifier and its attribute list.
    pub fn print(&self) -> (r: String)
        ensures
            r@ == node_text(*self),
            keys_unique(self.styles.pairs()),
    {
        let mut out = String::new();
        out.append("\t");
        let id = decimal_string(self.id);
        out.append(id.as_str());
        push_entity_attrs(&mut out, &self.styles);
        out.append("\n");
        assert(out@ =~= node_text(*self));
        out
    }
}

impl<T> Edge<T> {
    /// The edge's line: `parent -> child` and its attribute list.
    pub fn print(&self) -> (r: String)
        ensures
            r@ == edge_text(*self),
            keys_unique(self.styles.pairs()),
    {
        let mut out = String::new();
        out.append("\t");
        let p = decimal_string(self.parent);
        out.append(p.as_str());
        out.append(" -> ");
        let c = decimal_string(self.child);
        out.append(c.as_str());
        push_entity_attrs(&mut out, &self.styles);
        out.append("\n");
        assert(out@ =~= edge_text(*self));
        out
    }
}

impl<N, E> Graph<N, E> {
    /// The opening line and the blocks of graph, node and edge defaults.
    pub fn print_beginning(&self) -> (r: String)
        ensures
            r@ == beginning_text(*self),
            keys_unique(self.graph_styles.pairs()),
            keys_unique(self.node_styles.pairs()),
            keys_unique(self.edge_styles.pairs()),
    {
        let mut out = String::new();
        out.append("digraph \"");
        out.append(self.name.as_str());
        out.append("\" {\n");
        push_group(&mut out, "graph", &self.graph_styles);
        push_group(&mut out, "node", &self.node_styles);
        push_group(&mut out, "edge", &self.edge_styles);
        assert(out@ =~= beginning_text(*self));
        out
    }

    /// The closing line.
    pub fn print_ending(&self) -> (r: String)
        ensures
            r@ == ending_text(),
    {
        let mut out = String::new();
        out.append("}\n");
        out
    }

    fn output(&self, only_visible: bool, unregistered_visible: bool) -> (r: String)
        requires
            self.wf(),
        ensures
            r@ == beginning_text(*self) + nodes_text(self.nodes@, only_visible) + edges_text(
                *self,
                self.edges@,
                only_visible,
                unregistered_visible,
            ) + ending_text(),
            keys_unique(self.graph_styles.pairs()),
            keys_unique(self.node_styles.pairs()),
            keys_unique(self.edge_styles.pairs()),
    {
        let mut out = self.print_beginning();
        let ghost start = out@;
        let mut i: usize = 0;
        while i < self.nodes.len()
            invariant
                self.wf(),
                i <= self.nodes@.len(),
                out@ == start + nodes_text(self.nodes@.take(i as int), only_visible),
            decreases self.nodes@.len() - i,
        {
            let n = &self.nodes[i];
            if !only_visible || n.visible {
                let line = n.print();
                out.append(line.as_str());
            }
            proof {
                assert(self.nodes@.take(i + 1).drop_last() =~= self.nodes@.take(i as int));
            }
            i = i + 1;
        }
        proof {
            assert(self.nodes@.take(self.nodes@.len() as int) =~= self.nodes@);
        }
        let ghost middle = out@;
        let mut k: usize = 0;
        while k < self.edges.len()
            invariant
                self.wf(),
                k <= self.edges@.len(),
                out@ == middle + edges_text(*self, self.edges@.take(k as int), only_visible, unregistered_visible),
            decreases self.edges@.len() - k,
        {
            let e = &self.edges[k];
            let shown = if only_visible {
                let p = self.node(e.parent);
                let c = self.node(e.child);
                let parent_visible = match p {
                    Some(n) => n.visible,
                    None => unregistered_visible,
                };
                let child_visible = match c {
                    Some(n) => n.visible,
                    None => unregistered_visible,
                };
                parent_visible && child_visible
            } else {
                true
            };
            if shown {
                let line = e.print();
                out.append(line.as_str());
            }
            proof {
                assert(self.edges@.take(k + 1).drop_last() =~= self.edges@.take(k as int));
            }
            k = k + 1;
        }
        proof {
            assert(self.edges@.take(self.edges@.len() as int) =~= self.edges@);
        }
        let end = self.print_ending();
        out.append(end.as_str());
        out
    }

    /// The whole graph: every node and every edge.
    pub fn output_all(&self) -> (r: String)
        requires
            self.wf(),
        ensures
            r@ == beginning_text(*self) + nodes_text(self.nodes@, false) + edges_text(
                *self,
                self.edges@,
                false,
                false,
            ) + ending_text(),
            keys_unique(self.graph_styles.pairs()),
            keys_unique(self.node_styles.pairs()),
            keys_unique(self.edge_styles.pairs()),
    {
        self.output(false, false)
    }

    /// The graph with its visible nodes only, and the edges that
    /// `edge_shown` admits, an end without a node counting as visible when
    /// `print_unregistered_nodes`.
    pub fn output_visible_nodes(&self, print_unregistered_nodes: bool) -> (r: String)
        requires
            self.wf(),
        ensures
            r@ == beginning_text(*self) + nodes_text(self.nodes@, true) + edges_text(
                *self,
                self.edges@,
                true,
                print_unregistered_nodes,
            ) + ending_text(),
            keys_unique(self.graph_styles.pairs()),
            keys_unique(self.node_styles.pairs()),
            keys_unique(self.edge_styles.pairs()),
    {
        self.output(true, print_unregistered_nodes)
    }
}

} // verus!
