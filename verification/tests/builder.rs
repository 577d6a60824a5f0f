use std::collections::HashMap;

use supergit::builder::{Entry, TreeBuilder};
use supergit::tree::Node;

fn entry(name: &str, is_dir: bool) -> Entry {
    Entry { name: name.to_string(), is_dir }
}

fn key(names: &[&str]) -> Vec<String> {
    names.iter().map(|n| n.to_string()).collect()
}

fn sample() -> HashMap<Vec<String>, Vec<Entry>> {
    let mut fs = HashMap::new();
    fs.insert(key(&[]), vec![entry("src", true), entry("README", false), entry("docs", true)]);
    fs.insert(key(&["src"]), vec![entry("main.rs", false), entry("util", true)]);
    fs.insert(key(&["src", "util"]), vec![entry("io.rs", false)]);
    fs.insert(key(&["docs"]), vec![]);
    fs
}

fn build(fs: &HashMap<Vec<String>, Vec<Entry>>) -> (Node, Vec<Vec<String>>) {
    let mut builder = TreeBuilder::new("project".to_string(), true);
    let mut asked = vec![];
    while let Some(names) = builder.next_directory() {
        assert!(asked.len() < 100);
        builder.supply(&fs[&names]);
        asked.push(names);
    }
    assert!(builder.is_done());
    (builder.into_root(), asked)
}

fn names(node: &Node) -> Vec<&str> {
    node.children().iter().map(|n| n.file_name()).collect()
}

#[test]
fn builder_starts_with_the_directory_itself() {
    let builder = TreeBuilder::new("project".to_string(), true);
    assert!(!builder.is_done());
    assert_eq!(builder.next_directory(), Some(vec![]));
    let root = builder.into_root();
    assert_eq!(root.file_name(), "project");
    assert!(root.is_dir());
    assert!(root.children().is_empty());
}

#[test]
fn builder_for_a_file_has_nothing_to_read() {
    let mut builder = TreeBuilder::new("notes.txt".to_string(), false);
    assert!(builder.is_done());
    assert_eq!(builder.next_directory(), None);
    builder.supply(&vec![entry("ghost", false)]);
    let root = builder.into_root();
    assert!(!root.is_dir());
    assert!(root.children().is_empty());
}

#[test]
fn builder_mirrors_the_listings() {
    let (root, _) = build(&sample());
    assert_eq!(names(&root), vec!["src", "README", "docs"]);
    assert_eq!(names(&root.children()[0]), vec!["main.rs", "util"]);
    assert_eq!(names(&root.children()[0].children()[1]), vec!["io.rs"]);
    assert!(root.children()[1].children().is_empty());
    assert!(root.children()[2].children().is_empty());
    assert!(root.children()[0].is_dir());
    assert!(!root.children()[1].is_dir());
    assert!(root.children()[2].is_dir());
    assert!(!root.children()[0].children()[0].is_dir());
}

#[test]
fn builder_reads_each_directory_once_first_entry_first() {
    let (_, asked) = build(&sample());
    assert_eq!(
        asked,
        vec![key(&[]), key(&["src"]), key(&["src", "util"]), key(&["docs"])]
    );
}

#[test]
fn builder_leaves_everything_unselected() {
    let (root, _) = build(&sample());
    assert!(!root.is_selected());
    assert!(supergit::tree::collect_files(&root).is_empty());
}

#[test]
fn builder_keeps_listing_order() {
    let mut fs = HashMap::new();
    fs.insert(key(&[]), vec![entry("zeta", false), entry("alpha", false), entry("mid", false)]);
    let (root, asked) = build(&fs);
    assert_eq!(names(&root), vec!["zeta", "alpha", "mid"]);
    assert_eq!(asked, vec![key(&[])]);
}

#[test]
fn supply_after_the_end_changes_nothing() {
    let mut fs = HashMap::new();
    fs.insert(key(&[]), vec![entry("a", false)]);
    let mut builder = TreeBuilder::new("r".to_string(), true);
    builder.supply(&fs[&key(&[])]);
    assert!(builder.is_done());
    builder.supply(&vec![entry("b", false)]);
    assert_eq!(names(&builder.into_root()), vec!["a"]);
}

#[test]
fn replace_children_is_refused_for_files() {
    let mut root = Node::new("r".to_string(), true);
    assert!(root.push_child(Node::new("f".to_string(), false)).is_none());
    let kids = vec![Node::new("x".to_string(), false)];
    assert!(root.replace_children_at(&vec![0], kids).is_some());
    assert!(root.replace_children_at(&vec![3], vec![]).is_some());
    let kids = vec![Node::new("y".to_string(), false), Node::new("z".to_string(), true)];
    assert!(root.replace_children_at(&vec![], kids).is_none());
    assert_eq!(names(&root), vec!["y", "z"]);
    assert_eq!(root.names_along(&vec![1]), Some(vec!["z".to_string()]));
    assert_eq!(root.names_along(&vec![]), Some(vec![]));
    assert_eq!(root.names_along(&vec![2]), None);
}
