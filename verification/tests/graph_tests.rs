use buildforge::graph::{topological_sort, BuildEdge, BuildNode, GraphError, NodeConfig};

fn command_node(id: &str, command: &str) -> BuildNode {
    BuildNode {
        id: id.to_string(),
        name: id.to_string(),
        config: NodeConfig::Command { command: command.to_string(), cwd: None },
    }
}

fn edge(id: &str, source: &str, target: &str) -> BuildEdge {
    BuildEdge { id: id.to_string(), source: source.to_string(), target: target.to_string() }
}

#[test]
fn linear_two_node_graph_orders_source_first() {
    let nodes = vec![command_node("A", "echo 1"), command_node("B", "echo 2")];
    let edges = vec![edge("e1", "A", "B")];
    let order = topological_sort(&nodes, &edges).unwrap();
    assert_eq!(order.len(), 2);
    assert_eq!(order[0].id, "A");
    assert_eq!(order[1].id, "B");
}

#[test]
fn two_node_cycle_is_rejected() {
    let nodes = vec![command_node("A", "echo 1"), command_node("B", "echo 2")];
    let edges = vec![edge("e1", "A", "B"), edge("e2", "B", "A")];
    let r = topological_sort(&nodes, &edges);
    assert_eq!(r, Err(GraphError::CircularDependency));
}

#[test]
fn self_loop_is_rejected() {
    let nodes = vec![command_node("A", "echo 1")];
    let edges = vec![edge("e1", "A", "A")];
    assert_eq!(topological_sort(&nodes, &edges), Err(GraphError::CircularDependency));
}

#[test]
fn duplicate_node_id_is_rejected() {
    let nodes = vec![command_node("A", "echo 1"), command_node("A", "echo 2")];
    let r = topological_sort(&nodes, &vec![]);
    assert_eq!(r, Err(GraphError::DuplicateNodeId { id: "A".to_string() }));
}

#[test]
fn dangling_edge_is_rejected() {
    let nodes = vec![command_node("A", "echo 1")];
    let edges = vec![edge("e1", "A", "Z")];
    let r = topological_sort(&nodes, &edges);
    assert_eq!(r, Err(GraphError::UnknownNodeId { id: "Z".to_string() }));
}

#[test]
fn diamond_graph_respects_every_edge() {
    let nodes = vec![
        command_node("top", "echo t"),
        command_node("left", "echo l"),
        command_node("right", "echo r"),
        command_node("bottom", "echo b"),
    ];
    let edges = vec![
        edge("e1", "top", "left"),
        edge("e2", "top", "right"),
        edge("e3", "left", "bottom"),
        edge("e4", "right", "bottom"),
    ];
    let order = topological_sort(&nodes, &edges).unwrap();
    let pos = |id: &str| order.iter().position(|n| n.id == id).unwrap();
    assert_eq!(order.len(), 4);
    assert!(pos("top") < pos("left"));
    assert!(pos("top") < pos("right"));
    assert!(pos("left") < pos("bottom"));
    assert!(pos("right") < pos("bottom"));
}

#[test]
fn ready_ties_break_by_node_list_position() {
    let nodes = vec![
        command_node("z", "echo z"),
        command_node("a", "echo a"),
        command_node("m", "echo m"),
    ];
    let order = topological_sort(&nodes, &vec![]).unwrap();
    let ids: Vec<&str> = order.iter().map(|n| n.id.as_str()).collect();
    assert_eq!(ids, vec!["z", "a", "m"]);
}

#[test]
fn empty_graph_yields_empty_order() {
    let order = topological_sort(&vec![], &vec![]).unwrap();
    assert!(order.is_empty());
}

#[test]
fn graph_error_messages() {
    assert_eq!(
        GraphError::CircularDependency.describe(),
        "Circular dependency detected in build nodes"
    );
    assert_eq!(
        GraphError::DuplicateNodeId { id: "x1".to_string() }.describe(),
        "Duplicate node id: x1"
    );
    assert_eq!(
        GraphError::UnknownNodeId { id: "x2".to_string() }.describe(),
        "Unknown node id: x2"
    );
}
