use supergit::tree::{collect_files, Node};

fn file(name: &str) -> Node {
    Node::new(name.to_string(), false)
}

fn dir(name: &str, children: Vec<Node>) -> Node {
    let mut node = Node::new(name.to_string(), true);
    for child in children {
        assert!(node.push_child(child).is_none());
    }
    node
}

fn sample() -> Node {
    dir("root", vec![file("A"), dir("B", vec![file("C"), file("D")]), file("E")])
}

#[test]
fn new_node_is_unselected_leaf() {
    let node = Node::new("notes.txt".to_string(), false);
    assert_eq!(node.file_name(), "notes.txt");
    assert!(!node.is_dir());
    assert!(!node.is_selected());
    assert!(node.children().is_empty());
}

#[test]
fn file_takes_no_children() {
    let mut node = file("a.txt");
    let refused = node.push_child(file("b.txt"));
    assert!(refused.is_some());
    assert_eq!(refused.unwrap().file_name(), "b.txt");
    assert!(node.children().is_empty());
}

#[test]
fn directory_keeps_listing_order() {
    let root = dir("root", vec![file("zeta"), file("alpha"), file("mid")]);
    let names: Vec<&str> = root.children().iter().map(|n| n.file_name()).collect();
    assert_eq!(names, vec!["zeta", "alpha", "mid"]);
}

#[test]
fn nothing_selected_collects_nothing() {
    assert!(collect_files(&sample()).is_empty());
}

#[test]
fn collect_round_trip() {
    let mut root = sample();
    assert!(root.toggle_at(&vec![0]));
    assert!(root.toggle_at(&vec![1, 0]));
    assert_eq!(collect_files(&root), vec!["A".to_string(), "B/C".to_string()]);
}

#[test]
fn collect_lists_what_is_below_before_the_directory() {
    let mut root = sample();
    assert!(root.toggle_at(&vec![1]));
    assert!(root.toggle_at(&vec![1, 1]));
    assert!(root.toggle_at(&vec![2]));
    assert_eq!(
        collect_files(&root),
        vec!["B/D".to_string(), "B".to_string(), "E".to_string()]
    );
}

#[test]
fn collect_leaves_the_root_out() {
    let mut root = sample();
    assert!(root.toggle_at(&vec![]));
    assert!(root.is_selected());
    assert!(collect_files(&root).is_empty());
}

#[test]
fn collect_joins_deep_paths() {
    let mut root = dir("r", vec![dir("a", vec![dir("b", vec![file("c")])])]);
    assert!(root.toggle_at(&vec![0, 0, 0]));
    assert_eq!(collect_files(&root), vec!["a/b/c".to_string()]);
}

#[test]
fn toggle_twice_restores_selection() {
    let mut root = sample();
    assert!(root.toggle_at(&vec![1, 1]));
    assert!(root.node_at(&vec![1, 1]).unwrap().is_selected());
    assert!(root.toggle_at(&vec![1, 1]));
    assert!(!root.node_at(&vec![1, 1]).unwrap().is_selected());
    assert!(collect_files(&root).is_empty());
}

#[test]
fn toggle_on_a_path_that_leads_nowhere_changes_nothing() {
    let mut root = sample();
    assert!(!root.toggle_at(&vec![3]));
    assert!(!root.toggle_at(&vec![0, 0]));
    assert!(!root.toggle_at(&vec![1, 2]));
    assert!(collect_files(&root).is_empty());
}

#[test]
fn node_at_follows_indices() {
    let root = sample();
    assert_eq!(root.node_at(&vec![]).unwrap().file_name(), "root");
    assert_eq!(root.node_at(&vec![1]).unwrap().file_name(), "B");
    assert_eq!(root.node_at(&vec![1, 1]).unwrap().file_name(), "D");
    assert!(root.node_at(&vec![1, 1, 0]).is_none());
    assert!(root.node_at(&vec![5]).is_none());
}
