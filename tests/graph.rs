use fbx_objects_depviz::graph::{Edge, Graph, Node, SetVisibility, StyleMap};

fn chain(ids: &[i64], edges: &[(i64, i64)]) -> Graph<(), ()> {
    let mut graph = Graph::new("g".to_string());
    for &id in ids {
        graph.add_node(Node::new(id));
    }
    for &(p, c) in edges {
        graph.add_edge(Edge::new(p, c));
    }
    graph
}

fn hidden(graph: &Graph<(), ()>) -> Vec<i64> {
    graph.nodes.iter().filter(|n| !n.visible).map(|n| n.id).collect()
}

#[test]
fn add_node_replaces_and_keeps_order() {
    let mut graph: Graph<u32, ()> = Graph::new("g".to_string());
    assert!(graph.add_node(Node::new_with_data(5, 50)).is_none());
    assert!(graph.add_node(Node::new_with_data(-3, 30)).is_none());
    assert!(graph.add_node(Node::new_with_data(9, 90)).is_none());
    let previous = graph.add_node(Node::new_with_data(5, 51)).unwrap();
    assert_eq!(previous.data, 50);
    assert_eq!(graph.nodes.iter().map(|n| n.id).collect::<Vec<_>>(), vec![-3, 5, 9]);
    assert_eq!(graph.node(5).unwrap().data, 51);
    assert!(graph.node(4).is_none());
}

#[test]
fn ascendant_on_cycle_terminates_and_covers() {
    // 1 -> 2 -> 3 -> 1, and 4 -> 3; 5 unrelated.
    let mut graph = chain(&[1, 2, 3, 4, 5], &[(1, 2), (2, 3), (3, 1), (4, 3), (4, 3)]);
    graph.map_ascendant(&[3], &SetVisibility { visible: false });
    assert_eq!(hidden(&graph), vec![1, 2, 3, 4]);
}

#[test]
fn descendant_excludes_seed_off_cycle() {
    let mut graph = chain(&[1, 2, 3, 4], &[(1, 2), (2, 3), (2, 99), (4, 1)]);
    graph.map_descendant(&[1], &SetVisibility { visible: false });
    assert_eq!(hidden(&graph), vec![2, 3]);
}

#[test]
fn single_hop_maps() {
    let mut graph = chain(&[1, 2, 3, 4], &[(1, 2), (2, 3), (4, 2)]);
    graph.map_parents(&[2], &SetVisibility { visible: false });
    assert_eq!(hidden(&graph), vec![1, 4]);
    graph.map_children(&[1, 4], &SetVisibility { visible: false });
    assert_eq!(hidden(&graph), vec![1, 2, 4]);
    graph.map_children(&[77], &SetVisibility { visible: false });
    assert_eq!(hidden(&graph), vec![1, 2, 4]);
}

#[test]
fn style_map_insert_and_remove() {
    let mut styles = StyleMap::new();
    assert!(styles.insert("a".to_string(), "1".to_string()).is_none());
    assert!(styles.insert("b".to_string(), "2".to_string()).is_none());
    assert_eq!(styles.insert("a".to_string(), "3".to_string()), Some("1".to_string()));
    assert_eq!(styles.len(), 2);
    assert_eq!(styles.get("a").map(|s| s.as_str()), Some("3"));
    assert_eq!(styles.remove(&"a".to_string()), Some("3".to_string()));
    assert!(styles.remove(&"a".to_string()).is_none());
    assert_eq!(styles.len(), 1);
    let (k, v) = styles.entry_at(0);
    assert_eq!((k.as_str(), v.as_str()), ("b", "2"));
}

