use fbx_objects_depviz::fbx::filter::{
    EdgeFilter, EdgeFilterCondition, FilterError, Filters, NodeFilter, NodeFilterCondition,
};
use fbx_objects_depviz::fbx::operation::{EdgeOperation, NodeOperation};
use fbx_objects_depviz::fbx::{create_connection_edge, create_object_node, Graph, Node, ObjectProperties};
use fbx_objects_depviz::graph::StyleMap;

fn object(uid: i64, class: &str, name: &str) -> Node {
    create_object_node(&ObjectProperties {
        uid,
        name: name.to_string(),
        class: class.to_string(),
        subclass: String::new(),
    })
}

fn strings(items: &[&str]) -> Vec<String> {
    items.iter().map(|s| s.to_string()).collect()
}

fn node_op(name: &str, args: &[&[&str]]) -> NodeOperation {
    NodeOperation { name: name.to_string(), args: args.iter().map(|g| strings(g)).collect() }
}

fn edge_op(name: &str, args: &[&[&str]]) -> EdgeOperation {
    EdgeOperation { name: name.to_string(), args: args.iter().map(|g| strings(g)).collect() }
}

fn no_condition() -> NodeFilterCondition {
    NodeFilterCondition { class: None, subclass: None, name: None, uid: None }
}

fn class_condition(pattern: &str) -> NodeFilterCondition {
    NodeFilterCondition { class: Some(pattern.to_string()), ..no_condition() }
}

fn uid_condition(pattern: &str) -> NodeFilterCondition {
    NodeFilterCondition { uid: Some(pattern.to_string()), ..no_condition() }
}

fn empty_filters() -> Filters {
    Filters {
        graph_styles: StyleMap::new(),
        node_styles: StyleMap::new(),
        edge_styles: StyleMap::new(),
        node_operations: Vec::new(),
        edge_operations: Vec::new(),
        node_filters: Vec::new(),
        edge_filters: Vec::new(),
        show_implicit_nodes: None,
    }
}

fn node_rule(condition: NodeFilterCondition, groups: &[&str]) -> NodeFilter {
    NodeFilter { condition, operations: strings(groups) }
}

fn cube_and_red() -> Graph {
    let mut graph = Graph::new("scene".to_string());
    graph.add_node(object(1, "Model", "Cube"));
    graph.add_node(object(2, "Material", "Red"));
    graph.add_edge(create_connection_edge("OO".to_string(), 2, 1, None));
    graph
}

fn visible(graph: &Graph, id: i64) -> bool {
    graph.node(id).unwrap().visible
}

#[test]
fn hide_model_hides_node_and_its_edge() {
    let mut graph = cube_and_red();
    let mut filters = empty_filters();
    filters.node_operations.push(("hide-self".to_string(), vec![node_op("hide", &[&["self"]])]));
    filters.node_filters.push(node_rule(class_condition("^Model$"), &["hide-self"]));
    assert!(filters.apply(&mut graph).is_ok());
    assert!(!visible(&graph, 1));
    assert!(visible(&graph, 2));
    let out = graph.output_visible_nodes(filters.shows_implicit_nodes());
    assert_eq!(out, "digraph \"scene\" {\n\t2 [label=\"Material::Red\\n\\n2\"]\n}\n");
    assert!(!out.contains("\t1"));
    assert!(!out.contains("->"));
}

fn graph_with_dangling_edge() -> Graph {
    let mut graph = Graph::new("g".to_string());
    graph.add_node(object(1, "Model", "Cube"));
    graph.add_edge(create_connection_edge("OO".to_string(), 99, 1, None));
    graph
}

#[test]
fn unregistered_end_hidden_by_default() {
    let mut graph = graph_with_dangling_edge();
    let filters = empty_filters();
    assert!(filters.apply(&mut graph).is_ok());
    assert!(!filters.shows_implicit_nodes());
    let out = graph.output_visible_nodes(filters.shows_implicit_nodes());
    assert!(!out.contains("1 -> 99"));
    assert!(out.contains("\t1 ["));
}

#[test]
fn unregistered_end_shown_when_asked() {
    let mut graph = graph_with_dangling_edge();
    let mut filters = empty_filters();
    filters.show_implicit_nodes = Some(true);
    assert!(filters.apply(&mut graph).is_ok());
    assert!(filters.shows_implicit_nodes());
    let out = graph.output_visible_nodes(filters.shows_implicit_nodes());
    assert!(out.contains("\t1 -> 99\n"));
}

#[test]
fn edge_with_no_registered_end_follows_the_default() {
    let mut graph = Graph::new("g".to_string());
    graph.add_edge(create_connection_edge("OO".to_string(), 6, 5, None));
    assert_eq!(graph.output_visible_nodes(true), "digraph \"g\" {\n\t5 -> 6\n}\n");
    assert_eq!(graph.output_visible_nodes(false), "digraph \"g\" {\n}\n");
}

#[test]
fn show_then_hide_self_changes_only_visibility() {
    let mut graph = cube_and_red();
    let before = graph.node(1).unwrap().styles.get("label").cloned();
    let mut filters = empty_filters();
    filters.node_operations.push((
        "toggle".to_string(),
        vec![node_op("show", &[&["self"]]), node_op("hide", &[&["self"]])],
    ));
    filters.node_filters.push(node_rule(uid_condition("^1$"), &["toggle"]));
    assert!(filters.apply(&mut graph).is_ok());
    assert!(!visible(&graph, 1));
    assert!(visible(&graph, 2));
    assert_eq!(graph.node(1).unwrap().styles.get("label").cloned(), before);
    assert_eq!(graph.node(1).unwrap().styles.len(), 1);

    let mut filters = empty_filters();
    filters.node_operations.push((
        "toggle".to_string(),
        vec![node_op("hide", &[&["self"]]), node_op("show", &[&["self"]])],
    ));
    filters.node_filters.push(node_rule(uid_condition("^1$"), &["toggle"]));
    assert!(filters.apply(&mut graph).is_ok());
    assert!(visible(&graph, 1));
    assert_eq!(graph.node(1).unwrap().styles.get("label").cloned(), before);
}

#[test]
fn payloadless_node_fails_class_but_meets_uid() {
    let mut graph = Graph::new("g".to_string());
    graph.add_node(Node::new(0));
    graph.add_node(object(5, "Model", "Cube"));
    let cond = NodeFilterCondition { name: Some(".*".to_string()), ..no_condition() }.compile().ok().unwrap();
    assert!(!cond.is_match(graph.node(0).unwrap()));
    assert!(cond.is_match(graph.node(5).unwrap()));
    let cond = class_condition("").compile().ok().unwrap();
    assert!(!cond.is_match(graph.node(0).unwrap()));
    let cond = uid_condition("^0$").compile().ok().unwrap();
    assert!(cond.is_match(graph.node(0).unwrap()));
    assert!(!cond.is_match(graph.node(5).unwrap()));
    let cond = no_condition().compile().ok().unwrap();
    assert!(cond.is_match(graph.node(0).unwrap()));
}

#[test]
fn later_rule_sees_earlier_rule() {
    // Rule order decides: the last rule to touch node 1 wins.
    let mut graph = cube_and_red();
    let mut filters = empty_filters();
    filters.node_operations.push(("hide".to_string(), vec![node_op("hide", &[&["self"]])]));
    filters.node_operations.push(("show".to_string(), vec![node_op("show", &[&["self"]])]));
    filters.node_filters.push(node_rule(uid_condition("^1$"), &["hide"]));
    filters.node_filters.push(node_rule(no_condition(), &["show"]));
    assert!(filters.apply(&mut graph).is_ok());
    assert!(visible(&graph, 1));

    let mut graph = cube_and_red();
    filters.node_filters.reverse();
    assert!(filters.apply(&mut graph).is_ok());
    assert!(!visible(&graph, 1));
    assert!(visible(&graph, 2));
}

#[test]
fn update_attr_short_group_does_nothing() {
    let mut graph = cube_and_red();
    let mut filters = empty_filters();
    filters.node_operations.push((
        "restyle".to_string(),
        vec![node_op("update-attr", &[&["color"]]), node_op("remove-attr", &[&["missing"]])],
    ));
    filters.node_filters.push(node_rule(no_condition(), &["restyle"]));
    let before = graph.output_all();
    assert!(filters.apply(&mut graph).is_ok());
    assert_eq!(graph.output_all(), before);
}

#[test]
fn update_and_remove_attributes() {
    let mut graph = cube_and_red();
    let mut filters = empty_filters();
    filters.node_operations.push((
        "restyle".to_string(),
        vec![
            node_op("update-attr", &[&["color", "red"], &["shape", "box", "ignored"], &[]]),
            node_op("remove-attr", &[&["label", "shape"], &["color"]]),
        ],
    ));
    filters.node_filters.push(node_rule(class_condition("Mod"), &["restyle"]));
    assert!(filters.apply(&mut graph).is_ok());
    let n1 = graph.node(1).unwrap();
    assert_eq!(n1.styles.get("color").map(|s| s.as_str()), Some("red"));
    assert!(n1.styles.get("label").is_none());
    assert!(n1.styles.get("shape").is_none());
    assert_eq!(n1.styles.len(), 1);
    assert!(graph.node(2).unwrap().styles.get("color").is_none());
}

#[test]
fn unknown_operations_and_targets_are_ignored() {
    let mut graph = cube_and_red();
    let mut filters = empty_filters();
    filters.node_operations.push((
        "odd".to_string(),
        vec![node_op("explode", &[&["self"]]), node_op("hide", &[&["sideways", "cousins"]])],
    ));
    filters.node_filters.push(node_rule(no_condition(), &["odd", "no-such-group"]));
    let before = graph.output_all();
    assert!(filters.apply(&mut graph).is_ok());
    assert_eq!(graph.output_all(), before);
    assert!(visible(&graph, 1) && visible(&graph, 2));
}

#[test]
fn duplicate_group_names_are_detected() {
    let mut filters = empty_filters();
    filters.node_operations.push(("g".to_string(), vec![node_op("hide", &[&["self"]])]));
    filters.edge_operations.push(("g".to_string(), vec![edge_op("update-attr", &[&["a", "b"]])]));
    assert!(filters.group_names_unique());
    filters.node_operations.push(("g".to_string(), vec![node_op("show", &[&["self"]])]));
    assert!(!filters.group_names_unique());
}

#[test]
fn first_invalid_pattern_is_reported() {
    let mut graph = cube_and_red();
    let mut filters = empty_filters();
    filters.node_filters.push(node_rule(class_condition("Model"), &[]));
    filters.node_filters.push(node_rule(
        NodeFilterCondition {
            class: Some("ok".to_string()),
            subclass: Some("(sub".to_string()),
            name: Some("[name".to_string()),
            uid: None,
        },
        &[],
    ));
    filters.node_filters.push(node_rule(uid_condition("(uid"), &[]));
    filters.edge_filters.push(edge_rule(
        EdgeFilterCondition {
            src_condition: None,
            dst_condition: None,
            connection_type: Some("(edge".to_string()),
            property_name: None,
        },
        &[],
    ));
    match filters.apply(&mut graph) {
        Err(FilterError::InvalidPattern(p)) => assert_eq!(p, "(sub"),
        Ok(()) => panic!("an invalid pattern was accepted"),
    }
    let cond = EdgeFilterCondition {
        src_condition: Some(uid_condition("ok")),
        dst_condition: Some(NodeFilterCondition { name: Some("(dst".to_string()), ..no_condition() }),
        connection_type: Some("(type".to_string()),
        property_name: None,
    };
    match cond.compile() {
        Err(FilterError::InvalidPattern(p)) => assert_eq!(p, "(dst"),
        Ok(_) => panic!("an invalid pattern compiled"),
    }
}

#[test]
fn hide_descendant_and_parents() {
    let mut graph = cube_and_red();
    graph.add_node(object(3, "Texture", "Wood"));
    graph.add_edge(create_connection_edge("OO".to_string(), 3, 2, None));
    let mut filters = empty_filters();
    filters.node_operations.push(("down".to_string(), vec![node_op("hide", &[&["descendant"]])]));
    filters.node_filters.push(node_rule(uid_condition("^1$"), &["down"]));
    assert!(filters.apply(&mut graph).is_ok());
    assert!(visible(&graph, 1));
    assert!(!visible(&graph, 2));
    assert!(!visible(&graph, 3));

    let mut filters = empty_filters();
    filters.node_operations.push(("up".to_string(), vec![node_op("show", &[&["parents"]])]));
    filters.node_filters.push(node_rule(uid_condition("^3$"), &["up"]));
    assert!(filters.apply(&mut graph).is_ok());
    assert!(visible(&graph, 2));
    assert!(!visible(&graph, 3));
}

#[test]
fn invalid_pattern_is_reported_and_graph_untouched() {
    let mut graph = cube_and_red();
    let mut filters = empty_filters();
    filters.node_styles.insert("shape".to_string(), "box".to_string());
    filters.node_operations.push(("hide".to_string(), vec![node_op("hide", &[&["self"]])]));
    filters.node_filters.push(node_rule(no_condition(), &["hide"]));
    filters.edge_filters.push(EdgeFilter {
        condition: EdgeFilterCondition {
            src_condition: None,
            dst_condition: None,
            connection_type: Some("(".to_string()),
            property_name: None,
        },
        operations: Vec::new(),
    });
    let before = graph.output_all();
    match filters.apply(&mut graph) {
        Err(FilterError::InvalidPattern(p)) => assert_eq!(p, "("),
        Ok(()) => panic!("an invalid pattern was accepted"),
    }
    assert_eq!(graph.output_all(), before);
    assert!(visible(&graph, 1));
}

#[test]
fn invalid_node_pattern_fails_compile() {
    match class_condition("[z-a]").compile() {
        Err(FilterError::InvalidPattern(p)) => assert_eq!(p, "[z-a]"),
        Ok(_) => panic!("an invalid pattern compiled"),
    }
}

fn edge_rule(condition: EdgeFilterCondition, groups: &[&str]) -> EdgeFilter {
    EdgeFilter { condition, operations: strings(groups) }
}

#[test]
fn edge_rules_restyle_matching_edges() {
    let mut graph = cube_and_red();
    graph.add_edge(create_connection_edge("OP".to_string(), 2, 1, Some("DiffuseColor".to_string())));
    graph.add_edge(create_connection_edge("OO".to_string(), 2, 77, None));
    let mut filters = empty_filters();
    filters.edge_operations.push((
        "paint".to_string(),
        vec![edge_op("update-attr", &[&["color", "blue"]]), edge_op("hide", &[&["self"]])],
    ));
    filters.edge_operations.push(("unlabel".to_string(), vec![edge_op("remove-attr", &[&["label"]])]));
    filters.edge_filters.push(edge_rule(
        EdgeFilterCondition {
            src_condition: Some(class_condition("^Model$")),
            dst_condition: None,
            connection_type: Some("^O".to_string()),
            property_name: None,
        },
        &["paint"],
    ));
    filters.edge_filters.push(edge_rule(
        EdgeFilterCondition {
            src_condition: None,
            dst_condition: None,
            connection_type: None,
            property_name: Some("Color".to_string()),
        },
        &["unlabel"],
    ));
    assert!(filters.apply(&mut graph).is_ok());
    assert_eq!(graph.edges[0].styles.get("color").map(|s| s.as_str()), Some("blue"));
    assert_eq!(graph.edges[1].styles.get("color").map(|s| s.as_str()), Some("blue"));
    assert!(graph.edges[1].styles.get("label").is_none());
    // Its parent 77 has no node, so a source condition never holds.
    assert!(graph.edges[2].styles.get("color").is_none());
    assert_eq!(graph.edges[2].styles.len(), 0);
}

#[test]
fn absent_edge_field_fails_its_pattern() {
    let graph = cube_and_red();
    let cond = EdgeFilterCondition {
        src_condition: None,
        dst_condition: None,
        connection_type: None,
        property_name: Some("".to_string()),
    }
    .compile()
    .ok()
    .unwrap();
    assert!(!cond.is_match(&graph.edges[0], &graph));
    let cond = EdgeFilterCondition {
        src_condition: None,
        dst_condition: Some(class_condition("Material")),
        connection_type: Some("OO".to_string()),
        property_name: None,
    }
    .compile()
    .ok()
    .unwrap();
    assert!(cond.is_match(&graph.edges[0], &graph));
}

#[test]
fn style_defaults_are_laid_over() {
    let mut graph = cube_and_red();
    graph.node_styles.insert("shape".to_string(), "ellipse".to_string());
    graph.node_styles.insert("color".to_string(), "black".to_string());
    let mut filters = empty_filters();
    filters.node_styles.insert("shape".to_string(), "box".to_string());
    filters.graph_styles.insert("rankdir".to_string(), "LR".to_string());
    filters.edge_styles.insert("arrowhead".to_string(), "none".to_string());
    assert!(filters.apply(&mut graph).is_ok());
    assert_eq!(graph.node_styles.get("shape").map(|s| s.as_str()), Some("box"));
    assert_eq!(graph.node_styles.get("color").map(|s| s.as_str()), Some("black"));
    assert_eq!(graph.graph_styles.get("rankdir").map(|s| s.as_str()), Some("LR"));
    assert_eq!(graph.edge_styles.get("arrowhead").map(|s| s.as_str()), Some("none"));
    assert_eq!(graph.node_styles.len(), 2);
}
