use leafs::graph::{Graph, Node};

fn tree() -> Graph<&'static str> {
    let mut g = Graph::default();
    let root = g.add_node(Node::new("root"));
    let a = g.add_node(Node::new("a"));
    let b = g.add_node(Node::new("b"));
    let c = g.add_node(Node::new("c"));
    let d = g.add_node(Node::new("d"));
    g.add_edge(root, a);
    g.add_edge(root, b);
    g.add_edge(a, c);
    g.add_edge(b, d);
    g
}

#[test]
fn nodes_are_numbered_in_order() {
    let mut g: Graph<u32> = Graph::default();
    assert!(g.is_empty());
    assert_eq!(g.add_node(Node::new(7)), 0);
    assert_eq!(g.add_node(Node::new(9)), 1);
    assert_eq!(g.len(), 2);
    assert!(!g.is_empty());
    assert_eq!(*g.get_node(1).unwrap().content(), 9);
    assert!(g.get_node(2).is_none());
}

#[test]
fn bfs_walks_level_by_level() {
    let mut g = tree();
    assert_eq!(g.bfs(), &vec![0, 1, 2, 3, 4]);
    assert_eq!(g.leafs(), vec![3, 4]);
}

#[test]
fn bfs_of_empty_graph() {
    let mut g: Graph<u8> = Graph::default();
    assert!(g.bfs().is_empty());
    assert!(g.leafs().is_empty());
}

#[test]
fn bfs_keeps_its_first_walk() {
    let mut g = tree();
    assert_eq!(g.bfs(), &vec![0, 1, 2, 3, 4]);
    let e = g.add_node(Node::new("e"));
    g.add_edge(3, e);
    assert_eq!(g.bfs(), &vec![0, 1, 2, 3, 4]);
    assert_eq!(g.leafs(), vec![4]);
}

#[test]
fn bfs_walked_after_growth_sees_new_edges() {
    let mut g: Graph<u8> = Graph::default();
    g.add_node(Node::new(0));
    g.add_node(Node::new(1));
    g.add_edge(0, 1);
    assert_eq!(g.bfs(), &vec![0, 1]);
}

#[test]
fn unreachable_nodes_are_not_walked() {
    let mut g: Graph<u8> = Graph::default();
    g.add_node(Node::new(0));
    g.add_node(Node::new(1));
    g.add_node(Node::new(2));
    g.add_edge(1, 2);
    assert_eq!(g.bfs(), &vec![0]);
    assert_eq!(g.leafs(), vec![0]);
}

#[test]
fn shared_nodes_are_walked_once_per_path() {
    let mut g: Graph<u8> = Graph::default();
    for i in 0..4 {
        g.add_node(Node::new(i));
    }
    g.add_edge(0, 1);
    g.add_edge(0, 2);
    g.add_edge(1, 3);
    g.add_edge(2, 3);
    assert_eq!(g.bfs(), &vec![0, 1, 2, 3, 3]);
    assert_eq!(g.leafs(), vec![3, 3]);
}

#[test]
fn edges_outside_the_graph_are_ignored() {
    let mut g: Graph<u8> = Graph::default();
    g.add_node(Node::new(0));
    g.add_edge(0, 1);
    g.add_edge(1, 0);
    assert_eq!(g.bfs(), &vec![0]);
    assert_eq!(g.leafs(), vec![0]);
}
