use path_tree::segment::Segment;
use path_tree::tree::TreeNode;
use std::path::{Component, Path};

fn split(path: &str) -> Vec<Segment> {
    let mut out = Vec::new();
    for part in Path::new(path).components() {
        out.push(match part {
            Component::RootDir => Segment::Root,
            Component::CurDir => Segment::CurDir,
            Component::ParentDir => Segment::ParentDir,
            other => Segment::normal(&other.as_os_str().to_string_lossy()),
        });
    }
    out
}

fn tree_of(paths: &[&str]) -> TreeNode {
    let mut root = TreeNode::new(Segment::Root, 0);
    for path in paths {
        root.add_path(&split(path));
    }
    root
}

fn child<'a>(node: &'a TreeNode, name: &str) -> &'a TreeNode {
    let i = node.find_child(&Segment::normal(name));
    assert!(i < node.children().len(), "no child named {}", name);
    &node.children()[i].0
}

fn child_names(node: &TreeNode) -> Vec<String> {
    node.children().iter().map(|c| c.name().text()).collect()
}

fn node_count(node: &TreeNode) -> usize {
    let mut n = 1;
    for c in node.children() {
        n += node_count(&c.0);
    }
    n
}

#[test]
fn new_node_is_a_leaf() {
    let node = TreeNode::new(Segment::normal("usr"), 4);
    assert_eq!(node.name(), &Segment::Normal("usr".to_string()));
    assert_eq!(node.level(), 4);
    assert!(node.children().is_empty());
}

#[test]
fn empty_sequence_changes_nothing() {
    let mut root = tree_of(&["/usr/bin"]);
    let before = root.render();
    root.add_path(&Vec::new());
    assert_eq!(root.render(), before);
    assert_eq!(node_count(&root), 3);
}

#[test]
fn root_marker_alone_creates_no_child() {
    let mut root = TreeNode::new(Segment::Root, 0);
    root.add_path(&vec![Segment::Root]);
    assert!(root.children().is_empty());
    assert_eq!(root.level(), 0);
    assert_eq!(root.name(), &Segment::Root);
}

#[test]
fn split_of_absolute_path_starts_with_root() {
    assert_eq!(
        split("/usr/bin"),
        vec![Segment::Root, Segment::normal("usr"), Segment::normal("bin")]
    );
}

#[test]
fn inserting_twice_equals_inserting_once() {
    let once = tree_of(&["/usr/bin/bash"]);
    let twice = tree_of(&["/usr/bin/bash", "/usr/bin/bash"]);
    assert_eq!(node_count(&once), 4);
    assert_eq!(node_count(&twice), 4);
    assert_eq!(once.render(), twice.render());
    assert_eq!(child_names(&twice), vec!["usr"]);
    assert_eq!(child_names(child(&twice, "usr")), vec!["bin"]);
    assert_eq!(child_names(child(child(&twice, "usr"), "bin")), vec!["bash"]);
}

#[test]
fn duplicate_in_sample_adds_no_node_and_no_line() {
    let all = [
        "/usr/bin/bash",
        "workdir/bin/bash",
        "/home/rusty/hello.txt",
        "/home/rusty/dummy.txt",
        "/usr/bin/python",
        "/home/ellie/workdir/setup.sh",
    ];
    let without = tree_of(&all);
    let mut with = tree_of(&all);
    with.add_path(&split("/usr/bin/bash"));
    assert_eq!(node_count(&with), node_count(&without));
    assert_eq!(with.render(), without.render());
    let bash_lines = with.render().iter().filter(|l| l.trim() == "bash").count();
    assert_eq!(bash_lines, 2);
}

#[test]
fn common_prefix_is_shared() {
    let root = tree_of(&["/usr/bin/bash", "/usr/bin/python"]);
    assert_eq!(child_names(&root), vec!["usr"]);
    let usr = child(&root, "usr");
    assert_eq!(child_names(usr), vec!["bin"]);
    let bin = child(usr, "bin");
    assert_eq!(child_names(bin), vec!["bash", "python"]);
    assert_eq!(node_count(&root), 5);
}

#[test]
fn relative_path_hangs_below_the_root() {
    let root = tree_of(&["/usr/bin/bash", "workdir/bin/bash", "/home/rusty/hello.txt"]);
    assert_eq!(child_names(&root), vec!["usr", "workdir", "home"]);
    let workdir = child(&root, "workdir");
    assert_eq!(workdir.level(), 1);
    assert_eq!(child(&root, "usr").level(), 1);
    assert_eq!(child(&root, "home").level(), 1);
    assert_eq!(child_names(workdir), vec!["bin"]);
    assert_eq!(child_names(child(workdir, "bin")), vec!["bash"]);
    assert_eq!(child_names(child(child(&root, "usr"), "bin")), vec!["bash"]);
}

#[test]
fn branches_that_meet_again_are_reused() {
    let root = tree_of(&[
        "workdir/bin/bash",
        "/home/rusty/hello.txt",
        "/home/rusty/dummy.txt",
        "/home/ellie/workdir/setup.sh",
    ]);
    assert_eq!(child_names(&root), vec!["workdir", "home"]);
    let home = child(&root, "home");
    assert_eq!(child_names(home), vec!["rusty", "ellie"]);
    assert_eq!(child_names(child(home, "rusty")), vec!["hello.txt", "dummy.txt"]);
    let ellie = child(home, "ellie");
    assert_eq!(child_names(ellie), vec!["workdir"]);
    let inner = child(ellie, "workdir");
    assert_eq!(inner.level(), 3);
    assert_eq!(child_names(inner), vec!["setup.sh"]);
    let outer = child(&root, "workdir");
    assert_eq!(outer.level(), 1);
    assert_eq!(child_names(outer), vec!["bin"]);
}

#[test]
fn levels_grow_by_one() {
    let root = tree_of(&["/home/rusty/hello.txt"]);
    let home = child(&root, "home");
    let rusty = child(home, "rusty");
    let hello = child(rusty, "hello.txt");
    assert_eq!(
        (root.level(), home.level(), rusty.level(), hello.level()),
        (0, 1, 2, 3)
    );
}

#[test]
fn insertion_below_a_deeper_node_counts_from_its_level() {
    let mut node = TreeNode::new(Segment::normal("srv"), 7);
    node.add_path(&split("www/site"));
    let www = child(&node, "www");
    assert_eq!(www.level(), 8);
    assert_eq!(child(www, "site").level(), 9);
}

#[test]
fn names_are_case_sensitive() {
    let root = tree_of(&["/Usr", "/usr", "/USR"]);
    assert_eq!(child_names(&root), vec!["Usr", "usr", "USR"]);
}

#[test]
fn directory_markers_are_kept_as_segments() {
    let mut root = TreeNode::new(Segment::Root, 0);
    root.add_path(&vec![
        Segment::Root,
        Segment::normal("a"),
        Segment::ParentDir,
        Segment::normal("b"),
    ]);
    root.add_path(&vec![Segment::CurDir, Segment::normal("c")]);
    assert_eq!(child_names(&root), vec!["a", "."]);
    let a = child(&root, "a");
    assert_eq!(a.children()[0].name(), &Segment::ParentDir);
    assert_eq!(child_names(&a.children()[0].0), vec!["b"]);
    assert_eq!(root.children()[1].name(), &Segment::CurDir);
    // A name that reads like a marker is still a name of its own.
    root.add_path(&vec![Segment::normal(".")]);
    assert_eq!(root.children().len(), 3);
}

#[test]
fn root_marker_below_a_named_node_is_a_child() {
    let mut node = TreeNode::new(Segment::normal("mnt"), 0);
    node.add_path(&vec![Segment::Root, Segment::normal("disk")]);
    assert_eq!(node.children().len(), 1);
    assert_eq!(node.children()[0].name(), &Segment::Root);
    assert_eq!(child_names(&node.children()[0].0), vec!["disk"]);
}

#[test]
fn second_root_marker_is_a_child() {
    let mut root = TreeNode::new(Segment::Root, 0);
    root.add_path(&vec![Segment::Root, Segment::Root]);
    assert_eq!(root.children().len(), 1);
    assert_eq!(root.children()[0].name(), &Segment::Root);
    assert_eq!(root.children()[0].0.level(), 1);
}

#[test]
fn find_child_gives_index_or_count() {
    let root = tree_of(&["/usr", "/home", "/etc"]);
    assert_eq!(root.find_child(&Segment::normal("usr")), 0);
    assert_eq!(root.find_child(&Segment::normal("home")), 1);
    assert_eq!(root.find_child(&Segment::normal("etc")), 2);
    assert_eq!(root.find_child(&Segment::normal("var")), 3);
    assert_eq!(root.find_child(&Segment::Root), 3);
}

#[test]
fn wrapper_is_named_like_its_node() {
    let root = tree_of(&["/usr/bin"]);
    let entry = &root.children()[0];
    assert_eq!(entry.name(), &Segment::normal("usr"));
    assert_eq!(entry.name(), entry.0.name());
}

#[test]
fn segment_same_and_duplicate() {
    let a = Segment::normal("bin");
    assert!(a.same(&Segment::normal("bin")));
    assert!(!a.same(&Segment::normal("Bin")));
    assert!(!a.same(&Segment::Root));
    assert!(Segment::Root.same(&Segment::Root));
    assert!(!Segment::CurDir.same(&Segment::ParentDir));
    assert!(!Segment::normal("..").same(&Segment::ParentDir));
    assert_eq!(a.duplicate(), a);
    assert_eq!(Segment::ParentDir.duplicate(), Segment::ParentDir);
}

#[test]
fn segment_texts() {
    assert_eq!(Segment::Root.text(), "/");
    assert_eq!(Segment::CurDir.text(), ".");
    assert_eq!(Segment::ParentDir.text(), "..");
    assert_eq!(Segment::normal("hello.txt").text(), "hello.txt");
    assert_eq!(Segment::normal("").text(), "");
}

#[test]
fn children_compare_by_name_alone() {
    let a = tree_of(&["/usr/bin/bash"]);
    let b = tree_of(&["/usr", "/home/rusty"]);
    assert!(a.children()[0] == b.children()[0]);
    assert!(b.children()[0] != b.children()[1]);
    let deep = &a.children()[0].0.children()[0];
    assert!(*deep != a.children()[0]);
}
