//! Filter rules: conditions on nodes and edges, and the operations applied
//! to what they match.
use vstd::prelude::*;

use crate::fbx::operation::{
    apply_edge_operation_to, apply_node_operation, edge_ops_effect, node_op_effect, node_ops_effect,
    target_effect, visibility_effect, EdgeOperation, FbxGraphView, NodeOperation,
};
use crate::graph::{apply_times, SetVisibility};
use crate::fbx::{Edge, EdgeData, Graph, Node, NodeData};
use crate::graph::{EdgeView, GraphView, NodeView, StyleMap};
use crate::pattern::{regex_compiles, regex_finds, Pattern};
use crate::text::{decimal, decimal_string};

verus! {

/// Why a set of filters could not be applied.
pub enum FilterError {
    /// A condition holds this pattern, which is no valid regular expression.
    InvalidPattern(String),
}

/// The text of an optional string.
pub open spec fn opt_view(o: Option<String>) -> Option<Seq<char>> {
    match o {
        Some(s) => Some(s@),
        None => None,
    }
}

/// The source of an optional pattern.
pub open spec fn opt_pattern_view(o: Option<Pattern>) -> Option<Seq<char>> {
    match o {
        Some(p) => Some(p@),
        None => None,
    }
}

/// An absent pattern, or one that compiles.
pub open spec fn pattern_ok(p: Option<Seq<char>>) -> bool {
    match p {
        Some(q) => regex_compiles(q),
        None => true,
    }
}

/// An absent pattern, or one found in `text`.
pub open spec fn field_matches(p: Option<Seq<char>>, text: Seq<char>) -> bool {
    match p {
        Some(q) => regex_finds(q, text),
        None => true,
    }
}

/// An absent pattern; or a present field in which the pattern is found.
pub open spec fn opt_field_matches(p: Option<Seq<char>>, text: Option<Seq<char>>) -> bool {
    match p {
        Some(q) => text is Some && regex_finds(q, text->0),
        None => true,
    }
}

/// What a node condition says: an optional pattern for each field.
pub struct NodePredicate {
    pub class: Option<Seq<char>>,
    pub subclass: Option<Seq<char>>,
    pub name: Option<Seq<char>>,
    pub uid: Option<Seq<char>>,
}

impl NodePredicate {
    pub open spec fn compiles(self) -> bool {
        pattern_ok(self.class) && pattern_ok(self.subclass) && pattern_ok(self.name) && pattern_ok(
            self.uid,
        )
    }

    /// The first pattern, in field order (class, subclass, name, identifier),
    /// that does not compile.
    pub open spec fn first_invalid(self) -> Seq<char> {
        if !pattern_ok(self.class) {
            self.class->0
        } else if !pattern_ok(self.subclass) {
            self.subclass->0
        } else if !pattern_ok(self.name) {
            self.name->0
        } else {
            self.uid->0
        }
    }

    /// Every present pattern is found in its field. A node without object
    /// properties fails any class, subclass or name pattern; the identifier
    /// pattern is searched in its decimal form either way.
    pub open spec fn holds(self, n: NodeView<NodeData>) -> bool {
        &&& match n.data {
            Some(d) => field_matches(self.class, d.class@) && field_matches(self.subclass, d.subclass@)
                && field_matches(self.name, d.name@),
            None => self.class is None && self.subclass is None && self.name is None,
        }
        &&& field_matches(self.uid, decimal(n.id as int))
    }
}

/// What an edge condition says.
pub struct EdgePredicate {
    pub src: Option<NodePredicate>,
    pub dst: Option<NodePredicate>,
    pub connection_type: Option<Seq<char>>,
    pub property_name: Option<Seq<char>>,
}

/// An absent node condition; or a registered node that meets it.
pub open spec fn end_matches(
    c: Option<NodePredicate>,
    nodes: Map<i64, NodeView<NodeData>>,
    id: i64,
) -> bool {
    match c {
        Some(p) => nodes.contains_key(id) && p.holds(nodes[id]),
        None => true,
    }
}

impl EdgePredicate {
    pub open spec fn compiles(self) -> bool {
        &&& (self.src is Some ==> self.src->0.compiles())
        &&& (self.dst is Some ==> self.dst->0.compiles())
        &&& pattern_ok(self.connection_type)
        &&& pattern_ok(self.property_name)
    }

    /// The first pattern, in field order (source condition, destination
    /// condition, connection type, property name), that does not compile.
    pub open spec fn first_invalid(self) -> Seq<char> {
        if self.src is Some && !self.src->0.compiles() {
            self.src->0.first_invalid()
        } else if self.dst is Some && !self.dst->0.compiles() {
            self.dst->0.first_invalid()
        } else if !pattern_ok(self.connection_type) {
            self.connection_type->0
        } else {
            self.property_name->0
        }
    }

    /// Every present condition holds: on the parent's node, on the child's
    /// node, and on the connection type and property name, which must be present.
    pub open spec fn holds(self, e: EdgeView<EdgeData>, nodes: Map<i64, NodeView<NodeData>>) -> bool {
        &&& end_matches(self.src, nodes, e.parent)
        &&& end_matches(self.dst, nodes, e.child)
        &&& opt_field_matches(self.connection_type, opt_view(e.data.connection_type))
        &&& opt_field_matches(self.property_name, opt_view(e.data.property_name))
    }
}

/// Patterns on the object properties and the identifier of a node.
pub struct NodeFilterCondition {
    pub class: Option<String>,
    pub subclass: Option<String>,
    pub name: Option<String>,
    pub uid: Option<String>,
}

impl View for NodeFilterCondition {
    type V = NodePredicate;

    open spec fn view(&self) -> NodePredicate {
        NodePredicate {
            class: opt_view(self.class),
            subclass: opt_view(self.subclass),
            name: opt_view(self.name),
            uid: opt_view(self.uid),
        }
    }
}

/// A node condition with its patterns compiled.
pub struct CompiledNodeFilterCondition {
    pub class: Option<Pattern>,
    pub subclass: Option<Pattern>,
    pub name: Option<Pattern>,
    pub uid: Option<Pattern>,
}

impl View for CompiledNodeFilterCondition {
    type V = NodePredicate;

    open spec fn view(&self) -> NodePredicate {
        NodePredicate {
            class: opt_pattern_view(self.class),
            subclass: opt_pattern_view(self.subclass),
            name: opt_pattern_view(self.name),
            uid: opt_pattern_view(self.uid),
        }
    }
}

fn compile_opt(p: &Option<String>) -> (r: Result<Option<Pattern>, FilterError>)
    ensures
        match r {
            Ok(c) => pattern_ok(opt_view(*p)) && opt_pattern_view(c) == opt_view(*p),
            Err(FilterError::InvalidPattern(s)) => !pattern_ok(opt_view(*p)) && p is Some && s@
                == p->0@,
        },
{
    match p {
        Some(s) => match Pattern::new(s) {
            Ok(c) => Ok(Some(c)),
            Err(_) => Err(FilterError::InvalidPattern(s.clone())),
        },
        None => Ok(None),
    }
}

fn text_matches(p: &Option<Pattern>, text: &str) -> (r: bool)
    ensures
        r == field_matches(opt_pattern_view(*p), text@),
{
    match p {
        Some(re) => re.is_match(text),
        None => true,
    }
}

impl NodeFilterCondition {
    /// Compiles every present pattern; fails on the first that is not a
    /// valid regular expression.
    pub fn compile(&self) -> (r: Result<CompiledNodeFilterCondition, FilterError>)
        ensures
            match r {
                Ok(c) => self@.compiles() && c@ == self@,
                Err(FilterError::InvalidPattern(s)) => !self@.compiles() && s@ == self@.first_invalid()
                    && !regex_compiles(s@),
            },
    {
        let class = compile_opt(&self.class)?;
        let subclass = compile_opt(&self.subclass)?;
        let name = compile_opt(&self.name)?;
        let uid = compile_opt(&self.uid)?;
        Ok(CompiledNodeFilterCondition { class, subclass, name, uid })
    }
}

impl CompiledNodeFilterCondition {
    pub fn is_match(&self, node: &Node) -> (r: bool)
        ensures
            r == self@.holds(node@),
    {
        match &node.data {
            Some(data) => {
                if !text_matches(&self.class, data.class.as_str()) {
                    return false;
                }
                if !text_matches(&self.subclass, data.subclass.as_str()) {
                    return false;
                }
                if !text_matches(&self.name, data.name.as_str()) {
                    return false;
                }
            },
            None => {
                if self.class.is_some() || self.subclass.is_some() || self.name.is_some() {
                    return false;
                }
            },
        }
        match &self.uid {
            Some(re) => {
                let text = decimal_string(node.id);
                re.is_match(text.as_str())
            },
            None => true,
        }
    }
}

/// Conditions on the two ends of an edge and on its payload.
pub struct EdgeFilterCondition {
    pub src_condition: Option<NodeFilterCondition>,
    pub dst_condition: Option<NodeFilterCondition>,
    pub connection_type: Option<String>,
    pub property_name: Option<String>,
}

impl View for EdgeFilterCondition {
    type V = EdgePredicate;

    open spec fn view(&self) -> EdgePredicate {
        EdgePredicate {
            src: match self.src_condition {
                Some(c) => Some(c@),
                None => None,
            },
            dst: match self.dst_condition {
                Some(c) => Some(c@),
                None => None,
            },
            connection_type: opt_view(self.connection_type),
            property_name: opt_view(self.property_name),
        }
    }
}

/// An edge condition with its patterns compiled.
pub struct CompiledEdgeFilterCondition {
    pub src_condition: Option<CompiledNodeFilterCondition>,
    pub dst_condition: Option<CompiledNodeFilterCondition>,
    pub connection_type: Option<Pattern>,
    pub property_name: Option<Pattern>,
}

impl View for CompiledEdgeFilterCondition {
    type V = EdgePredicate;

    open spec fn view(&self) -> EdgePredicate {
        EdgePredicate {
            src: match self.src_condition {
                Some(c) => Some(c@),
                None => None,
            },
            dst: match self.dst_condition {
                Some(c) => Some(c@),
                None => None,
            },
            connection_type: opt_pattern_view(self.connection_type),
            property_name: opt_pattern_view(self.property_name),
        }
    }
}

fn compile_opt_condition(c: &Option<NodeFilterCondition>) -> (r: Result<
    Option<CompiledNodeFilterCondition>,
    FilterError,
>)
    ensures
        match r {
            Ok(Some(k)) => c is Some && c->0@.compiles() && k@ == c->0@,
            Ok(None) => c is None,
            Err(FilterError::InvalidPattern(s)) => c is Some && !c->0@.compiles() && s@
                == c->0@.first_invalid() && !regex_compiles(s@),
        },
{
    match c {
        Some(cond) => {
            let k = cond.compile()?;
            Ok(Some(k))
        },
        None => Ok(None),
    }
}

impl EdgeFilterCondition {
    /// Compiles every present pattern, of both ends' conditions too; fails
    /// on the first that is not a valid regular expression.
    pub fn compile(&self) -> (r: Result<CompiledEdgeFilterCondition, FilterError>)
        ensures
            match r {
                Ok(c) => self@.compiles() && c@ == self@,
                Err(FilterError::InvalidPattern(s)) => !self@.compiles() && s@ == self@.first_invalid()
                    && !regex_compiles(s@),
            },
    {
        let src_condition = compile_opt_condition(&self.src_condition)?;
        let dst_condition = compile_opt_condition(&self.dst_condition)?;
        let connection_type = compile_opt(&self.connection_type)?;
        let property_name = compile_opt(&self.property_name)?;
        Ok(CompiledEdgeFilterCondition { src_condition, dst_condition, connection_type, property_name })
    }
}

fn end_is_match(c: &Option<CompiledNodeFilterCondition>, graph: &Graph, id: i64) -> (r: bool)
    requires
        graph.wf(),
    ensures
        r == end_matches(
            match *c {
                Some(k) => Some(k@),
                None => None,
            },
            graph@.node_map(),
            id,
        ),
{
    match c {
        Some(cond) => match graph.node(id) {
            Some(n) => cond.is_match(n),
            None => false,
        },
        None => true,
    }
}

fn opt_text_matches(p: &Option<Pattern>, text: &Option<String>) -> (r: bool)
    ensures
        r == opt_field_matches(opt_pattern_view(*p), opt_view(*text)),
{
    match p {
        Some(re) => match text {
            Some(t) => re.is_match(t.as_str()),
            None => false,
        },
        None => true,
    }
}

impl CompiledEdgeFilterCondition {
    /// Whether `edge` meets the condition, its ends looked up among the
    /// nodes of `graph`.
    pub fn is_match(&self, edge: &Edge, graph: &Graph) -> (r: bool)
        requires
            graph.wf(),
        ensures
            r == self@.holds(edge@, graph@.node_map()),
    {
        end_is_match(&self.src_condition, graph, edge.parent) && end_is_match(
            &self.dst_condition,
            graph,
            edge.child,
        ) && opt_text_matches(&self.connection_type, &edge.data.connection_type)
            && opt_text_matches(&self.property_name, &edge.data.property_name)
    }
}


/// A rule on nodes: a condition, and the names of the operation groups to
/// apply to each node that meets it.
pub struct NodeFilter {
    pub condition: NodeFilterCondition,
    pub operations: Vec<String>,
}

/// A rule on edges: a condition, and the names of the operation groups to
/// apply to each edge that meets it.
pub struct EdgeFilter {
    pub condition: EdgeFilterCondition,
    pub operations: Vec<String>,
}

/// A set of filter rules. Operation groups are looked up by name; names
/// are unique (see `wf`).
pub struct Filters {
    pub graph_styles: StyleMap,
    pub node_styles: StyleMap,
    pub edge_styles: StyleMap,
    pub node_operations: Vec<(String, Vec<NodeOperation>)>,
    pub edge_operations: Vec<(String, Vec<EdgeOperation>)>,
    pub node_filters: Vec<NodeFilter>,
    pub edge_filters: Vec<EdgeFilter>,
    pub show_implicit_nodes: Option<bool>,
}

/// No two groups of `table` share a name.
pub open spec fn names_unique<T>(table: Seq<(String, Vec<T>)>) -> bool {
    forall|i: int, j: int|
        0 <= i < table.len() && 0 <= j < table.len() && i != j ==> table[i].0@ != table[j].0@
}

/// The operations of the group of `table` named `name`.
pub open spec fn lookup<T>(table: Seq<(String, Vec<T>)>, name: Seq<char>) -> Option<Seq<T>> {
    if exists|i: int| 0 <= i < table.len() && table[i].0@ == name {
        Some(table[choose|i: int| 0 <= i < table.len() && table[i].0@ == name].1@)
    } else {
        None
    }
}

fn find_group<T>(table: &Vec<(String, Vec<T>)>, name: &String) -> (r: Option<usize>)
    requires
        names_unique(table@),
    ensures
        match r {
            Some(i) => i < table@.len() && lookup(table@, name@) == Some(table@[i as int].1@),
            None => lookup(table@, name@) is None,
        },
{
    let mut i: usize = 0;
    while i < table.len()
        invariant
            names_unique(table@),
            i <= table@.len(),
            forall|j: int| 0 <= j < i ==> table@[j].0@ != name@,
        decreases table@.len() - i,
    {
        if table[i].0 == *name {
            proof {
                assert(0 <= i < table@.len() && table@[i as int].0@ == name@);
                let k = choose|k: int| 0 <= k < table@.len() && table@[k].0@ == name@;
                if k != i {
                    assert(table@[k].0@ != table@[i as int].0@);
                }
            }
            return Some(i);
        }
        i = i + 1;
    }
    None
}

fn table_names_unique<T>(table: &Vec<(String, Vec<T>)>) -> (r: bool)
    ensures
        r == names_unique(table@),
{
    let mut i: usize = 0;
    while i < table.len()
        invariant
            i <= table@.len(),
            forall|a: int, b: int|
                0 <= a < i && 0 <= b < table@.len() && a != b ==> table@[a].0@ != table@[b].0@,
        decreases table@.len() - i,
    {
        let mut j: usize = 0;
        while j < table.len()
            invariant
                i < table@.len(),
                j <= table@.len(),
                forall|a: int, b: int|
                    0 <= a < i && 0 <= b < table@.len() && a != b ==> table@[a].0@ != table@[b].0@,
                forall|b: int| 0 <= b < j && b != i ==> table@[i as int].0@ != table@[b].0@,
            decreases table@.len() - j,
        {
            if j != i && table[i].0 == table[j].0 {
                return false;
            }
            j = j + 1;
        }
        i = i + 1;
    }
    true
}

/// The graph after the groups named `names`, in order, on the node `id`;
/// unknown names do nothing.
pub open spec fn named_node_ops_effect(
    g: FbxGraphView,
    id: i64,
    names: Seq<String>,
    table: Seq<(String, Vec<NodeOperation>)>,
) -> FbxGraphView
    decreases names.len(),
{
    if names.len() == 0 {
        g
    } else {
        let prev = named_node_ops_effect(g, id, names.drop_last(), table);
        match lookup(table, names.last()@) {
            Some(ops) => node_ops_effect(prev, id, ops),
            None => prev,
        }
    }
}

/// The edge after the groups named `names`, in order; unknown names do nothing.
pub open spec fn named_edge_ops_effect(
    e: EdgeView<EdgeData>,
    names: Seq<String>,
    table: Seq<(String, Vec<EdgeOperation>)>,
) -> EdgeView<EdgeData>
    decreases names.len(),
{
    if names.len() == 0 {
        e
    } else {
        let prev = named_edge_ops_effect(e, names.drop_last(), table);
        match lookup(table, names.last()@) {
            Some(ops) => edge_ops_effect(prev, ops),
            None => prev,
        }
    }
}

/// The identifiers of the nodes that meet `c`, in the order of `nodes`.
pub open spec fn matching_ids(nodes: Seq<NodeView<NodeData>>, c: NodePredicate) -> Seq<i64>
    decreases nodes.len(),
{
    if nodes.len() == 0 {
        Seq::empty()
    } else {
        let prev = matching_ids(nodes.drop_last(), c);
        if c.holds(nodes.last()) {
            prev.push(nodes.last().id)
        } else {
            prev
        }
    }
}

/// The graph after the groups named `names` on each of `ids`, in order.
pub open spec fn each_node_effect(
    g: FbxGraphView,
    ids: Seq<i64>,
    names: Seq<String>,
    table: Seq<(String, Vec<NodeOperation>)>,
) -> FbxGraphView
    decreases ids.len(),
{
    if ids.len() == 0 {
        g
    } else {
        named_node_ops_effect(each_node_effect(g, ids.drop_last(), names, table), ids.last(), names, table)
    }
}

/// The graph after the node rules `rules`, in order. Each rule's matches are
/// those of the graph as the rules before it left it, all computed before
/// the rule's operations run.
pub open spec fn node_rules_effect(
    g: FbxGraphView,
    rules: Seq<NodeFilter>,
    table: Seq<(String, Vec<NodeOperation>)>,
) -> FbxGraphView
    decreases rules.len(),
{
    if rules.len() == 0 {
        g
    } else {
        let prev = node_rules_effect(g, rules.drop_last(), table);
        let rule = rules.last();
        each_node_effect(prev, matching_ids(prev.nodes, rule.condition@), rule.operations@, table)
    }
}

/// The graph after one edge rule: each edge that meets its condition, with
/// its ends looked up among the graph's nodes, goes through the named groups.
pub open spec fn edge_rule_effect(
    g: FbxGraphView,
    rule: EdgeFilter,
    table: Seq<(String, Vec<EdgeOperation>)>,
) -> FbxGraphView {
    GraphView {
        edges: Seq::new(
            g.edges.len(),
            |k: int|
                if rule.condition@.holds(g.edges[k], g.node_map()) {
                    named_edge_ops_effect(g.edges[k], rule.operations@, table)
                } else {
                    g.edges[k]
                },
        ),
        ..g
    }
}

/// The graph after the edge rules `rules`, in order.
pub open spec fn edge_rules_effect(
    g: FbxGraphView,
    rules: Seq<EdgeFilter>,
    table: Seq<(String, Vec<EdgeOperation>)>,
) -> FbxGraphView
    decreases rules.len(),
{
    if rules.len() == 0 {
        g
    } else {
        edge_rule_effect(edge_rules_effect(g, rules.drop_last(), table), rules.last(), table)
    }
}

/// Rule `i` is the first whose condition does not compile (`ok`), and `s`
/// is its first pattern that does not (`bad`), for some `i`.
pub open spec fn first_invalid_rule(ok: Seq<bool>, bad: Seq<Seq<char>>, s: Seq<char>) -> bool {
    exists|i: int|
        0 <= i < ok.len() && !ok[i] && bad[i] == s && forall|j: int| 0 <= j < i ==> #[trigger] ok[j]
}

impl Filters {
    /// `s` is the pattern that `apply` reports: the first that does not
    /// compile among the node rules, in order, or else among the edge rules.
    pub open spec fn first_invalid(&self, s: Seq<char>) -> bool {
        ||| first_invalid_rule(
            self.node_filters@.map_values(|f: NodeFilter| f.condition@.compiles()),
            self.node_filters@.map_values(|f: NodeFilter| f.condition@.first_invalid()),
            s,
        )
        ||| (forall|i: int|
            0 <= i < self.node_filters@.len() ==> #[trigger] self.node_filters@[i].condition@.compiles())
            && first_invalid_rule(
            self.edge_filters@.map_values(|f: EdgeFilter| f.condition@.compiles()),
            self.edge_filters@.map_values(|f: EdgeFilter| f.condition@.first_invalid()),
            s,
        )
    }

    /// Operation groups are named uniquely, for nodes and for edges.
    pub open spec fn wf(&self) -> bool {
        names_unique(self.node_operations@) && names_unique(self.edge_operations@)
    }

    /// Whether no two operation groups, of nodes or of edges, share a name.
    pub fn group_names_unique(&self) -> (r: bool)
        ensures
            r == self.wf(),
    {
        table_names_unique(&self.node_operations) && table_names_unique(&self.edge_operations)
    }

    /// Every pattern of every rule compiles.
    pub open spec fn compiles(&self) -> bool {
        &&& forall|i: int|
            0 <= i < self.node_filters@.len() ==> #[trigger] self.node_filters@[i].condition@.compiles()
        &&& forall|i: int|
            0 <= i < self.edge_filters@.len() ==> #[trigger] self.edge_filters@[i].condition@.compiles()
    }

    /// The graph with the style defaults of the filters laid over its own.
    pub open spec fn overlay(&self, g: FbxGraphView) -> FbxGraphView {
        GraphView {
            graph_styles: g.graph_styles.union_prefer_right(self.graph_styles@),
            node_styles: g.node_styles.union_prefer_right(self.node_styles@),
            edge_styles: g.edge_styles.union_prefer_right(self.edge_styles@),
            ..g
        }
    }

    /// The graph after the whole set: style defaults, then every node rule,
    /// then every edge rule.
    pub open spec fn effect(&self, g: FbxGraphView) -> FbxGraphView {
        edge_rules_effect(
            node_rules_effect(self.overlay(g), self.node_filters@, self.node_operations@),
            self.edge_filters@,
            self.edge_operations@,
        )
    }

    /// Whether edges with an end that has no node are shown; they are not
    /// unless the filters say so.
    pub fn shows_implicit_nodes(&self) -> (r: bool)
        ensures
            r == (self.show_implicit_nodes == Some(true)),
    {
        match self.show_implicit_nodes {
            Some(b) => b,
            None => false,
        }
    }

    /// Applies the groups named `ops`, in order, to the node `id`.
    pub fn apply_node_operations(&self, id: i64, graph: &mut Graph, ops: &[String])
        requires
            self.wf(),
            old(graph).wf(),
        ensures
            final(graph).wf(),
            final(graph)@ == named_node_ops_effect(old(graph)@, id, ops@, self.node_operations@),
    {
        let ghost g0 = graph@;
        let mut n: usize = 0;
        while n < ops.len()
            invariant
                self.wf(),
                graph.wf(),
                n <= ops@.len(),
                graph@ == named_node_ops_effect(g0, id, ops@.take(n as int), self.node_operations@),
            decreases ops@.len() - n,
        {
            proof {
                assert(ops@.take(n + 1).drop_last() =~= ops@.take(n as int));
            }
            match find_group(&self.node_operations, &ops[n]) {
                Some(gi) => {
                    let group = &self.node_operations[gi].1;
                    let ghost start = graph@;
                    let mut k: usize = 0;
                    while k < group.len()
                        invariant
                            graph.wf(),
                            k <= group@.len(),
                            graph@ == node_ops_effect(start, id, group@.take(k as int)),
                        decreases group@.len() - k,
                    {
                        apply_node_operation(&group[k], id, graph);
                        proof {
                            assert(group@.take(k + 1).drop_last() =~= group@.take(k as int));
                        }
                        k = k + 1;
                    }
                    proof {
                        assert(group@.take(group@.len() as int) =~= group@);
                    }
                },
                None => {},
            }
            n = n + 1;
        }
        proof {
            assert(ops@.take(ops@.len() as int) =~= ops@);
        }
    }

    /// Applies the groups named `ops`, in order, to `edge`.
    pub fn apply_edge_operation(&self, edge: &mut Edge, ops: &[String])
        requires
            self.wf(),
        ensures
            final(edge)@ == named_edge_ops_effect(old(edge)@, ops@, self.edge_operations@),
    {
        let mut n: usize = 0;
        while n < ops.len()
            invariant
                self.wf(),
                n <= ops@.len(),
                edge@ == named_edge_ops_effect(old(edge)@, ops@.take(n as int), self.edge_operations@),
            decreases ops@.len() - n,
        {
            proof {
                assert(ops@.take(n + 1).drop_last() =~= ops@.take(n as int));
            }
            match find_group(&self.edge_operations, &ops[n]) {
                Some(gi) => {
                    let group = &self.edge_operations[gi].1;
                    let ghost start = edge@;
                    let mut k: usize = 0;
                    while k < group.len()
                        invariant
                            k <= group@.len(),
                            edge@ == edge_ops_effect(start, group@.take(k as int)),
                        decreases group@.len() - k,
                    {
                        apply_edge_operation_to(&group[k], edge);
                        proof {
                            assert(group@.take(k + 1).drop_last() =~= group@.take(k as int));
                        }
                        k = k + 1;
                    }
                    proof {
                        assert(group@.take(group@.len() as int) =~= group@);
                    }
                },
                None => {},
            }
            n = n + 1;
        }
        proof {
            assert(ops@.take(ops@.len() as int) =~= ops@);
        }
    }

    fn compile_node_conditions(&self) -> (r: Result<Vec<CompiledNodeFilterCondition>, FilterError>)
        ensures
            match r {
                Ok(cs) => cs@.len() == self.node_filters@.len() && forall|i: int|
                    0 <= i < cs@.len() ==> #[trigger] cs@[i]@ == self.node_filters@[i].condition@
                        && self.node_filters@[i].condition@.compiles(),
                Err(FilterError::InvalidPattern(s)) => !regex_compiles(s@) && first_invalid_rule(
                    self.node_filters@.map_values(|f: NodeFilter| f.condition@.compiles()),
                    self.node_filters@.map_values(|f: NodeFilter| f.condition@.first_invalid()),
                    s@,
                ),
            },
    {
        let mut cs: Vec<CompiledNodeFilterCondition> = Vec::new();
        let mut i: usize = 0;
        while i < self.node_filters.len()
            invariant
                i <= self.node_filters@.len(),
                cs@.len() == i,
                forall|k: int|
                    0 <= k < i ==> #[trigger] cs@[k]@ == self.node_filters@[k].condition@
                        && self.node_filters@[k].condition@.compiles(),
            decreases self.node_filters@.len() - i,
        {
            match self.node_filters[i].condition.compile() {
                Ok(c) => cs.push(c),
                Err(e) => {
                    proof {
                        let ok = self.node_filters@.map_values(|f: NodeFilter| f.condition@.compiles());
                        assert(!ok[i as int]);
                        assert forall|j: int| 0 <= j < i implies #[trigger] ok[j] by {
                            assert(cs@[j]@ == self.node_filters@[j].condition@);
                        }
                    }
                    return Err(e);
                },
            }
            i = i + 1;
        }
        Ok(cs)
    }

    fn compile_edge_conditions(&self) -> (r: Result<Vec<CompiledEdgeFilterCondition>, FilterError>)
        ensures
            match r {
                Ok(cs) => cs@.len() == self.edge_filters@.len() && forall|i: int|
                    0 <= i < cs@.len() ==> #[trigger] cs@[i]@ == self.edge_filters@[i].condition@
                        && self.edge_filters@[i].condition@.compiles(),
                Err(FilterError::InvalidPattern(s)) => !regex_compiles(s@) && first_invalid_rule(
                    self.edge_filters@.map_values(|f: EdgeFilter| f.condition@.compiles()),
                    self.edge_filters@.map_values(|f: EdgeFilter| f.condition@.first_invalid()),
                    s@,
                ),
            },
    {
        let mut cs: Vec<CompiledEdgeFilterCondition> = Vec::new();
        let mut i: usize = 0;
        while i < self.edge_filters.len()
            invariant
                i <= self.edge_filters@.len(),
                cs@.len() == i,
                forall|k: int|
                    0 <= k < i ==> #[trigger] cs@[k]@ == self.edge_filters@[k].condition@
                        && self.edge_filters@[k].condition@.compiles(),
            decreases self.edge_filters@.len() - i,
        {
            match self.edge_filters[i].condition.compile() {
                Ok(c) => cs.push(c),
                Err(e) => {
                    proof {
                        let ok = self.edge_filters@.map_values(|f: EdgeFilter| f.condition@.compiles());
                        assert(!ok[i as int]);
                        assert forall|j: int| 0 <= j < i implies #[trigger] ok[j] by {
                            assert(cs@[j]@ == self.edge_filters@[j].condition@);
                        }
                    }
                    return Err(e);
                },
            }
            i = i + 1;
        }
        Ok(cs)
    }

    /// Applies the whole set to `graph`: lays the style defaults over the
    /// graph's, then runs each node rule in order, then each edge rule in
    /// order. Every pattern is compiled first: if one is invalid the graph
    /// is left as it was.
    pub fn apply(&self, graph: &mut Graph) -> (r: Result<(), FilterError>)
        requires
            self.wf(),
            old(graph).wf(),
        ensures
            final(graph).wf(),
            r is Ok <==> self.compiles(),
            r is Ok ==> final(graph)@ == self.effect(old(graph)@),
            r is Err ==> final(graph)@ == old(graph)@,
            match r {
                Err(FilterError::InvalidPattern(s)) => !regex_compiles(s@) && self.first_invalid(s@),
                Ok(_) => true,
            },
    {
        let node_conditions = match self.compile_node_conditions() {
            Ok(cs) => cs,
            Err(e) => return Err(e),
        };
        let edge_conditions = match self.compile_edge_conditions() {
            Ok(cs) => cs,
            Err(e) => {
                proof {
                    assert forall|i: int| 0 <= i < self.node_filters@.len() implies #[trigger] self.node_filters@[i].condition@.compiles() by {
                        assert(node_conditions@[i]@ == self.node_filters@[i].condition@);
                    }
                }
                return Err(e);
            },
        };
        let ghost g0 = graph@;
        proof {
            assert forall|i: int| 0 <= i < self.node_filters@.len() implies #[trigger] self.node_filters@[i].condition@.compiles() by {
                assert(node_conditions@[i]@ == self.node_filters@[i].condition@);
            }
            assert forall|i: int| 0 <= i < self.edge_filters@.len() implies #[trigger] self.edge_filters@[i].condition@.compiles() by {
                assert(edge_conditions@[i]@ == self.edge_filters@[i].condition@);
            }
        }

        graph.graph_styles.extend_from(&self.graph_styles);
        graph.node_styles.extend_from(&self.node_styles);
        graph.edge_styles.extend_from(&self.edge_styles);
        let ghost g1 = graph@;
        assert(g1 == self.overlay(g0));

        let ghost node_table = self.node_operations@;
        let mut r: usize = 0;
        while r < self.node_filters.len()
            invariant
                graph.wf(),
                self.wf(),
                r <= self.node_filters@.len(),
                node_conditions@.len() == self.node_filters@.len(),
                forall|i: int|
                    0 <= i < node_conditions@.len() ==> #[trigger] node_conditions@[i]@
                        == self.node_filters@[i].condition@,
                node_table == self.node_operations@,
                graph@ == node_rules_effect(g1, self.node_filters@.take(r as int), node_table),
            decreases self.node_filters@.len() - r,
        {
            proof {
                assert(self.node_filters@.take(r + 1).drop_last() =~= self.node_filters@.take(r as int));
            }
            let ghost start = graph@;
            let cond = &node_conditions[r];
            let mut ids: Vec<i64> = Vec::new();
            let mut k: usize = 0;
            while k < graph.nodes.len()
                invariant
                    graph@ == start,
                    k <= start.nodes.len(),
                    ids@ == matching_ids(start.nodes.take(k as int), cond@),
                decreases start.nodes.len() - k,
            {
                proof {
                    assert(start.nodes.take(k + 1).drop_last() =~= start.nodes.take(k as int));
                }
                if cond.is_match(&graph.nodes[k]) {
                    ids.push(graph.nodes[k].id);
                }
                k = k + 1;
            }
            proof {
                assert(start.nodes.take(start.nodes.len() as int) =~= start.nodes);
            }
            let ops = self.node_filters[r].operations.as_slice();
            let mut j: usize = 0;
            while j < ids.len()
                invariant
                    self.wf(),
                    graph.wf(),
                    j <= ids@.len(),
                    r < self.node_filters@.len(),
                    ops@ == self.node_filters@[r as int].operations@,
                    graph@ == each_node_effect(start, ids@.take(j as int), ops@, node_table),
                    node_table == self.node_operations@,
                decreases ids@.len() - j,
            {
                proof {
                    assert(ids@.take(j + 1).drop_last() =~= ids@.take(j as int));
                }
                self.apply_node_operations(ids[j], graph, ops);
                j = j + 1;
            }
            proof {
                assert(ids@.take(ids@.len() as int) =~= ids@);
            }
            r = r + 1;
        }
        proof {
            assert(self.node_filters@.take(self.node_filters@.len() as int) =~= self.node_filters@);
        }
        let ghost g2 = graph@;

        let ghost edge_table = self.edge_operations@;
        let mut r: usize = 0;
        while r < self.edge_filters.len()
            invariant
                graph.wf(),
                self.wf(),
                r <= self.edge_filters@.len(),
                edge_conditions@.len() == self.edge_filters@.len(),
                forall|i: int|
                    0 <= i < edge_conditions@.len() ==> #[trigger] edge_conditions@[i]@
                        == self.edge_filters@[i].condition@,
                edge_table == self.edge_operations@,
                graph@ == edge_rules_effect(g2, self.edge_filters@.take(r as int), edge_table),
            decreases self.edge_filters@.len() - r,
        {
            proof {
                assert(self.edge_filters@.take(r + 1).drop_last() =~= self.edge_filters@.take(r as int));
            }
            let ghost start = graph@;
            let cond = &edge_conditions[r];
            let ghost rule = self.edge_filters@[r as int];
            let mut hit: Vec<bool> = Vec::new();
            let mut k: usize = 0;
            while k < graph.edges.len()
                invariant
                    graph@ == start,
                    graph.wf(),
                    k <= start.edges.len(),
                    hit@.len() == k,
                    cond@ == rule.condition@,
                    forall|x: int|
                        0 <= x < k ==> #[trigger] hit@[x] == rule.condition@.holds(
                            start.edges[x],
                            start.node_map(),
                        ),
                decreases start.edges.len() - k,
            {
                let m = cond.is_match(&graph.edges[k], graph);
                hit.push(m);
                k = k + 1;
            }
            let ops = self.edge_filters[r].operations.as_slice();
            proof {
                assert(start.edges =~= Seq::new(
                    start.edges.len(),
                    |x: int|
                        if x < 0 && hit@[x] {
                            named_edge_ops_effect(start.edges[x], ops@, edge_table)
                        } else {
                            start.edges[x]
                        },
                ));
            }
            let mut k: usize = 0;
            while k < graph.edges.len()
                invariant
                    self.wf(),
                    graph.wf(),
                    graph.edges@.len() == start.edges.len(),
                    k <= start.edges.len(),
                    hit@.len() == start.edges.len(),
                    ops@ == rule.operations@,
                    edge_table == self.edge_operations@,
                    forall|x: int|
                        0 <= x < start.edges.len() ==> #[trigger] hit@[x] == rule.condition@.holds(
                            start.edges[x],
                            start.node_map(),
                        ),
                    graph@ == (GraphView {
                        edges: Seq::new(
                            start.edges.len(),
                            |x: int|
                                if x < k && hit@[x] {
                                    named_edge_ops_effect(start.edges[x], ops@, edge_table)
                                } else {
                                    start.edges[x]
                                },
                        ),
                        ..start
                    }),
                decreases start.edges.len() - k,
            {
                let ghost before = graph@;
                if hit[k] {
                    self.apply_edge_operation(&mut graph.edges[k], ops);
                    proof {
                        assert(before.edges[k as int] == start.edges[k as int]);
                        assert(graph@.edges =~= before.edges.update(
                            k as int,
                            named_edge_ops_effect(start.edges[k as int], ops@, edge_table),
                        ));
                    }
                } else {
                    assert(graph@ == before);
                }
                proof {
                    assert(graph@.edges =~= Seq::new(
                        start.edges.len(),
                        |x: int|
                            if x < k + 1 && hit@[x] {
                                named_edge_ops_effect(start.edges[x], ops@, edge_table)
                            } else {
                                start.edges[x]
                            },
                    ));
                }
                k = k + 1;
            }
            proof {
                assert(graph@.edges =~= edge_rule_effect(start, rule, edge_table).edges);
            }
            r = r + 1;
        }
        proof {
            assert(self.edge_filters@.take(self.edge_filters@.len() as int) =~= self.edge_filters@);
        }
        Ok(())
    }
}

/// A node without object properties never meets a condition with a class,
/// subclass or name pattern, whatever the pattern; a condition with none of
/// them it meets exactly when the identifier pattern, if any, is found.
pub proof fn lemma_payloadless_node(c: NodePredicate, n: NodeView<NodeData>)
    requires
        n.data is None,
    ensures
        c.class is Some || c.subclass is Some || c.name is Some ==> !c.holds(n),
        c.class is None && c.subclass is None && c.name is None ==> (c.holds(n) <==> field_matches(
            c.uid,
            decimal(n.id as int),
        )),
{
}

/// Node rules run in order: the rules of `first` followed by those of
/// `then` leave the graph that `then` makes of what `first` left. So the
/// matches of each rule are taken on the graph exactly as the rules before
/// it changed it.
pub proof fn lemma_node_rules_in_order(
    g: FbxGraphView,
    first: Seq<NodeFilter>,
    then: Seq<NodeFilter>,
    table: Seq<(String, Vec<NodeOperation>)>,
)
    ensures
        node_rules_effect(g, first + then, table) == node_rules_effect(
            node_rules_effect(g, first, table),
            then,
            table,
        ),
    decreases then.len(),
{
    if then.len() == 0 {
        assert(first + then =~= first);
    } else {
        assert((first + then).drop_last() =~= first + then.drop_last());
        assert((first + then).last() == then.last());
        lemma_node_rules_in_order(g, first, then.drop_last(), table);
    }
}

/// Edge rules run in order, in the same way as node rules.
pub proof fn lemma_edge_rules_in_order(
    g: FbxGraphView,
    first: Seq<EdgeFilter>,
    then: Seq<EdgeFilter>,
    table: Seq<(String, Vec<EdgeOperation>)>,
)
    ensures
        edge_rules_effect(g, first + then, table) == edge_rules_effect(
            edge_rules_effect(g, first, table),
            then,
            table,
        ),
    decreases then.len(),
{
    if then.len() == 0 {
        assert(first + then =~= first);
    } else {
        assert((first + then).drop_last() =~= first + then.drop_last());
        assert((first + then).last() == then.last());
        lemma_edge_rules_in_order(g, first, then.drop_last(), table);
    }
}

/// Same number of nodes, with the same identifiers and payloads in the same
/// order.
pub open spec fn nodes_kept(a: Seq<NodeView<NodeData>>, b: Seq<NodeView<NodeData>>) -> bool {
    &&& a.len() == b.len()
    &&& forall|i: int| 0 <= i < a.len() ==> #[trigger] b[i].id == a[i].id && b[i].data == a[i].data
}

/// Same number of edges, between the same ends, with the same payloads.
pub open spec fn edges_kept(a: Seq<EdgeView<EdgeData>>, b: Seq<EdgeView<EdgeData>>) -> bool {
    &&& a.len() == b.len()
    &&& forall|i: int|
        0 <= i < a.len() ==> #[trigger] b[i].parent == a[i].parent && b[i].child == a[i].child
            && b[i].data == a[i].data
}

proof fn lemma_apply_times_visibility(f: SetVisibility, n: NodeView<NodeData>, k: nat)
    ensures
        apply_times(f, n, k).id == n.id,
        apply_times(f, n, k).data == n.data,
    decreases k,
{
    if k > 0 {
        lemma_apply_times_visibility(f, n, (k - 1) as nat);
    }
}

proof fn lemma_target_keeps(g: FbxGraphView, id: i64, t: Seq<char>, visible: bool)
    ensures
        nodes_kept(g.nodes, target_effect(g, id, t, visible).nodes),
        target_effect(g, id, t, visible).edges == g.edges,
{
    let f = SetVisibility { visible };
    assert forall|i: int| 0 <= i < g.nodes.len() implies apply_times(
        f,
        g.nodes[i],
        #[trigger] crate::graph::seed_hits(g.edges, true, seq![id], g.nodes[i].id),
    ).id == g.nodes[i].id && apply_times(
        f,
        g.nodes[i],
        crate::graph::seed_hits(g.edges, true, seq![id], g.nodes[i].id),
    ).data == g.nodes[i].data by {
        lemma_apply_times_visibility(f, g.nodes[i], crate::graph::seed_hits(g.edges, true, seq![id], g.nodes[i].id));
    }
    assert forall|i: int| 0 <= i < g.nodes.len() implies apply_times(
        f,
        g.nodes[i],
        #[trigger] crate::graph::seed_hits(g.edges, false, seq![id], g.nodes[i].id),
    ).id == g.nodes[i].id && apply_times(
        f,
        g.nodes[i],
        crate::graph::seed_hits(g.edges, false, seq![id], g.nodes[i].id),
    ).data == g.nodes[i].data by {
        lemma_apply_times_visibility(f, g.nodes[i], crate::graph::seed_hits(g.edges, false, seq![id], g.nodes[i].id));
    }
}

proof fn lemma_visibility_keeps(g: FbxGraphView, id: i64, targets: Seq<String>, visible: bool)
    ensures
        nodes_kept(g.nodes, visibility_effect(g, id, targets, visible).nodes),
        visibility_effect(g, id, targets, visible).edges == g.edges,
    decreases targets.len(),
{
    if targets.len() > 0 {
        lemma_visibility_keeps(g, id, targets.drop_last(), visible);
        lemma_target_keeps(visibility_effect(g, id, targets.drop_last(), visible), id, targets.last()@, visible);
    }
}

proof fn lemma_node_op_keeps(g: FbxGraphView, id: i64, op: NodeOperation)
    ensures
        nodes_kept(g.nodes, node_op_effect(g, id, op).nodes),
        node_op_effect(g, id, op).edges == g.edges,
{
    if op.args@.len() > 0 {
        lemma_visibility_keeps(g, id, op.args@[0]@, false);
        lemma_visibility_keeps(g, id, op.args@[0]@, true);
    }
}

proof fn lemma_node_ops_keeps(g: FbxGraphView, id: i64, ops: Seq<NodeOperation>)
    ensures
        nodes_kept(g.nodes, node_ops_effect(g, id, ops).nodes),
        node_ops_effect(g, id, ops).edges == g.edges,
    decreases ops.len(),
{
    if ops.len() > 0 {
        lemma_node_ops_keeps(g, id, ops.drop_last());
        lemma_node_op_keeps(node_ops_effect(g, id, ops.drop_last()), id, ops.last());
    }
}

proof fn lemma_named_node_ops_keeps(
    g: FbxGraphView,
    id: i64,
    names: Seq<String>,
    table: Seq<(String, Vec<NodeOperation>)>,
)
    ensures
        nodes_kept(g.nodes, named_node_ops_effect(g, id, names, table).nodes),
        named_node_ops_effect(g, id, names, table).edges == g.edges,
    decreases names.len(),
{
    if names.len() > 0 {
        let prev = named_node_ops_effect(g, id, names.drop_last(), table);
        lemma_named_node_ops_keeps(g, id, names.drop_last(), table);
        match lookup(table, names.last()@) {
            Some(ops) => lemma_node_ops_keeps(prev, id, ops),
            None => {},
        }
    }
}

proof fn lemma_each_node_keeps(
    g: FbxGraphView,
    ids: Seq<i64>,
    names: Seq<String>,
    table: Seq<(String, Vec<NodeOperation>)>,
)
    ensures
        nodes_kept(g.nodes, each_node_effect(g, ids, names, table).nodes),
        each_node_effect(g, ids, names, table).edges == g.edges,
    decreases ids.len(),
{
    if ids.len() > 0 {
        lemma_each_node_keeps(g, ids.drop_last(), names, table);
        lemma_named_node_ops_keeps(each_node_effect(g, ids.drop_last(), names, table), ids.last(), names, table);
    }
}

proof fn lemma_node_rules_keep(g: FbxGraphView, rules: Seq<NodeFilter>, table: Seq<(String, Vec<NodeOperation>)>)
    ensures
        nodes_kept(g.nodes, node_rules_effect(g, rules, table).nodes),
        node_rules_effect(g, rules, table).edges == g.edges,
    decreases rules.len(),
{
    if rules.len() > 0 {
        let prev = node_rules_effect(g, rules.drop_last(), table);
        lemma_node_rules_keep(g, rules.drop_last(), table);
        lemma_each_node_keeps(prev, matching_ids(prev.nodes, rules.last().condition@), rules.last().operations@, table);
    }
}

proof fn lemma_edge_ops_keep(e: EdgeView<EdgeData>, ops: Seq<EdgeOperation>)
    ensures
        edge_ops_effect(e, ops).parent == e.parent,
        edge_ops_effect(e, ops).child == e.child,
        edge_ops_effect(e, ops).data == e.data,
    decreases ops.len(),
{
    if ops.len() > 0 {
        lemma_edge_ops_keep(e, ops.drop_last());
    }
}

proof fn lemma_named_edge_ops_keep(e: EdgeView<EdgeData>, names: Seq<String>, table: Seq<(String, Vec<EdgeOperation>)>)
    ensures
        named_edge_ops_effect(e, names, table).parent == e.parent,
        named_edge_ops_effect(e, names, table).child == e.child,
        named_edge_ops_effect(e, names, table).data == e.data,
    decreases names.len(),
{
    if names.len() > 0 {
        let prev = named_edge_ops_effect(e, names.drop_last(), table);
        lemma_named_edge_ops_keep(e, names.drop_last(), table);
        match lookup(table, names.last()@) {
            Some(ops) => lemma_edge_ops_keep(prev, ops),
            None => {},
        }
    }
}

proof fn lemma_edge_rules_keep(g: FbxGraphView, rules: Seq<EdgeFilter>, table: Seq<(String, Vec<EdgeOperation>)>)
    ensures
        edges_kept(g.edges, edge_rules_effect(g, rules, table).edges),
        edge_rules_effect(g, rules, table).nodes == g.nodes,
    decreases rules.len(),
{
    if rules.len() > 0 {
        let prev = edge_rules_effect(g, rules.drop_last(), table);
        lemma_edge_rules_keep(g, rules.drop_last(), table);
        let rule = rules.last();
        assert forall|k: int| 0 <= k < prev.edges.len() implies #[trigger] edge_rule_effect(prev, rule, table).edges[k].parent
            == prev.edges[k].parent && edge_rule_effect(prev, rule, table).edges[k].child == prev.edges[k].child
            && edge_rule_effect(prev, rule, table).edges[k].data == prev.edges[k].data by {
            lemma_named_edge_ops_keep(prev.edges[k], rule.operations@, table);
        }
    }
}

/// Applying filters deletes nothing and moves nothing: the graph keeps its
/// nodes in order, each with its identifier and payload, and its edges in
/// order, each between the same ends with the same payload. Only
/// visibility flags and styles change.
pub proof fn lemma_apply_keeps_structure(f: Filters, g: FbxGraphView)
    ensures
        nodes_kept(g.nodes, f.effect(g).nodes),
        edges_kept(g.edges, f.effect(g).edges),
{
    let o = f.overlay(g);
    lemma_node_rules_keep(o, f.node_filters@, f.node_operations@);
    let n = node_rules_effect(o, f.node_filters@, f.node_operations@);
    lemma_edge_rules_keep(n, f.edge_filters@, f.edge_operations@);
}

} // verus!
