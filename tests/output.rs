use fbx_objects_depviz::fbx::{create_object_node, separate_name_class, ConnectionType, LinkEndType, ObjectProperties};
use fbx_objects_depviz::graph::{Edge, Graph, Node};
use fbx_objects_depviz::text::{find_chars, style_escape};

#[test]
fn node_and_edge_lines() {
    let mut node: Node<()> = Node::new(-42);
    assert_eq!(node.print(), "\t-42\n");
    node.styles.insert("label".to_string(), "say \"hi\"".to_string());
    node.styles.insert("color".to_string(), "red".to_string());
    assert_eq!(node.print(), "\t-42 [label=\"say \"\"hi\"\"\", color=\"red\"]\n");
    let mut edge: Edge<()> = Edge::new(7, 0);
    assert_eq!(edge.print(), "\t7 -> 0\n");
    edge.styles.insert("label".to_string(), "x".to_string());
    assert_eq!(edge.print(), "\t7 -> 0 [label=\"x\"]\n");
}

#[test]
fn whole_graph_with_defaults() {
    let mut graph: Graph<(), ()> = Graph::new("scene.fbx".to_string());
    graph.graph_styles.insert("rankdir".to_string(), "LR".to_string());
    graph.node_styles.insert("shape".to_string(), "box".to_string());
    graph.node_styles.insert("style".to_string(), "filled".to_string());
    graph.add_node(Node::new(2));
    graph.add_node(Node::new(1));
    graph.add_edge(Edge::new(1, 2));
    graph.nodes[1].visible = false;
    let expected_begin = "digraph \"scene.fbx\" {\n\tgraph [\n\t\trankdir=\"LR\"\n\t]\n\tnode [\n\t\tshape=\"box\"\n, \t\tstyle=\"filled\"\n\t]\n";
    assert_eq!(graph.print_beginning(), expected_begin);
    assert_eq!(graph.print_ending(), "}\n");
    assert_eq!(graph.output_all(), format!("{}\t1\n\t2\n\t1 -> 2\n}}\n", expected_begin));
    assert_eq!(graph.output_visible_nodes(true), format!("{}\t1\n}}\n", expected_begin));
}

#[test]
fn object_node_label() {
    let props = ObjectProperties {
        uid: 123,
        name: "Cube".to_string(),
        class: "Model".to_string(),
        subclass: "Mesh".to_string(),
    };
    let node = create_object_node(&props);
    assert_eq!(node.id, 123);
    assert!(node.visible);
    assert_eq!(node.styles.get("label").map(|s| s.as_str()), Some("Model::Cube\\nMesh\\n123"));
}

#[test]
fn name_class_forms() {
    assert_eq!(separate_name_class("Cube\u{0}\u{1}Model"), Some(("Cube", "Model")));
    assert_eq!(separate_name_class("Model::Cube"), Some(("Cube", "Model")));
    assert_eq!(separate_name_class("a::b\u{0}\u{1}c::d"), Some(("a::b", "c::d")));
    assert_eq!(separate_name_class("Model::Cube::x"), Some(("Cube::x", "Model")));
    assert_eq!(separate_name_class("plain"), None);
    assert_eq!(separate_name_class(""), None);
}

#[test]
fn connection_type_tags() {
    let t = ConnectionType::from_string("OP").unwrap();
    assert!(matches!(t.parent, LinkEndType::Object));
    assert!(matches!(t.child, LinkEndType::Property));
    let t = ConnectionType::from_string("PO").unwrap();
    assert!(matches!(t.parent, LinkEndType::Property));
    assert!(matches!(t.child, LinkEndType::Object));
    assert!(ConnectionType::from_string("OO").is_some());
    assert!(ConnectionType::from_string("PP").is_some());
    assert!(ConnectionType::from_string("OX").is_none());
    assert!(ConnectionType::from_string("OOO").is_none());
    assert!(ConnectionType::from_string("").is_none());
}

#[test]
fn text_helpers() {
    let zero: Node<()> = Node::new(0);
    assert_eq!(zero.print(), "\t0\n");
    let node: Node<()> = Node::new(i64::MIN);
    assert_eq!(node.print(), "\t-9223372036854775808\n");
    let edge: Edge<()> = Edge::new(0, 1234567);
    assert_eq!(edge.print(), "\t0 -> 1234567\n");
    assert_eq!(style_escape("a\"b\"\""), "a\"\"b\"\"\"\"");
    assert_eq!(style_escape("plain\\"), "plain\\");
    assert_eq!(find_chars("abcabc", "ca"), Some(2));
    assert_eq!(find_chars("héllo", "llo"), Some(2));
    assert_eq!(find_chars("abc", "abcd"), None);
    assert_eq!(find_chars("abc", ""), Some(0));
}
