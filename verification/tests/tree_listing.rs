use ftm::storage::Storage;
use ftm::types::FileTreeNode;

fn find<'a>(nodes: &'a [FileTreeNode], name: &str) -> &'a FileTreeNode {
    nodes.iter().find(|n| n.name == name).expect("node missing")
}

fn make_storage() -> Storage {
    Storage::new(".ftm".to_string(), 100, 1 << 30)
}

#[test]
fn path_segments_drop_empty_pieces() {
    assert_eq!(Storage::path_segments("a/b/c.txt"), vec!["a", "b", "c.txt"]);
    assert_eq!(Storage::path_segments("solo.rs"), vec!["solo.rs"]);
    assert_eq!(Storage::path_segments("a//b/"), vec!["a", "b"]);
    assert!(Storage::path_segments("").is_empty());
    assert!(Storage::path_segments("///").is_empty());
}

#[test]
fn tree_nests_directories() {
    let st = make_storage();
    let flat = vec![
        ("src/main.rs".to_string(), 3usize),
        ("src/util/text.rs".to_string(), 1usize),
        ("notes.md".to_string(), 2usize),
    ];
    let tree = st.list_files_tree(&flat);
    assert_eq!(tree.len(), 2);

    let notes = find(&tree, "notes.md");
    assert_eq!(notes.count, Some(2));
    assert!(notes.children.is_none());

    let src = find(&tree, "src");
    assert_eq!(src.count, None);
    let src_children = src.children.as_ref().expect("src has children");
    assert_eq!(find(src_children, "main.rs").count, Some(3));

    let util = find(src_children, "util");
    let util_children = util.children.as_ref().expect("util has children");
    assert_eq!(find(util_children, "text.rs").count, Some(1));
}

#[test]
fn tree_of_empty_listing_is_empty() {
    let st = make_storage();
    let tree = st.list_files_tree(&vec![]);
    assert!(tree.is_empty());
}

#[test]
fn tree_keeps_sibling_files() {
    let st = make_storage();
    let flat = vec![
        ("d/a.rs".to_string(), 1usize),
        ("d/b.rs".to_string(), 2usize),
    ];
    let tree = st.list_files_tree(&flat);
    assert_eq!(tree.len(), 1);
    let d = find(&tree, "d");
    let children = d.children.as_ref().expect("d has children");
    assert_eq!(children.len(), 2);
    assert_eq!(find(children, "a.rs").count, Some(1));
    assert_eq!(find(children, "b.rs").count, Some(2));
}
