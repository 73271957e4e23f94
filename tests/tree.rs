use cliprdr_fuse::descriptor::FileDescriptor;
use cliprdr_fuse::error::CliprdrError;
use cliprdr_fuse::tree::FsTree;

fn desc(path: &str, is_dir: bool, size: u64, index: usize) -> FileDescriptor {
    FileDescriptor {
        conn_id: 1,
        segments: path.split('/').map(|s| s.to_string()).collect(),
        is_dir,
        size,
        modified: 5,
        index,
    }
}

fn names(v: &[(usize, String)]) -> Vec<String> {
    v.iter().map(|(_, n)| n.clone()).collect()
}

#[test]
fn tree_single_nested_file() {
    let t = FsTree::build(vec![desc("a/b.txt", false, 10, 0)], 1);
    assert_eq!(t.list_root(), vec!["a".to_string()]);
    let a = t.lookup(0, &"a".to_string()).unwrap();
    let attr = t.getattr(a).unwrap();
    assert!(attr.is_dir);
    assert_eq!(attr.size, 0);
    let entries = t.readdir(a).unwrap();
    assert_eq!(names(&entries), vec!["b.txt".to_string()]);
    let b = t.lookup(a, &"b.txt".to_string()).unwrap();
    assert_eq!(entries[0].0, b);
    let battr = t.getattr(b).unwrap();
    assert!(!battr.is_dir);
    assert_eq!(battr.size, 10);
    assert_eq!(battr.modified, 5);
}

#[test]
fn tree_root_lists_each_top_segment_once() {
    let t = FsTree::build(
        vec![
            desc("a/x", false, 1, 0),
            desc("a/y", false, 2, 1),
            desc("b", false, 3, 2),
            desc("c/d/e", false, 4, 3),
            desc("a", true, 0, 4),
        ],
        1,
    );
    assert_eq!(t.list_root(), vec!["a".to_string(), "b".to_string(), "c".to_string()]);
    let a = t.lookup(0, &"a".to_string()).unwrap();
    assert_eq!(names(&t.readdir(a).unwrap()), vec!["x".to_string(), "y".to_string()]);
    let c = t.lookup(0, &"c".to_string()).unwrap();
    assert_eq!(names(&t.readdir(c).unwrap()), vec!["d".to_string()]);
}

#[test]
fn tree_duplicate_path_last_wins() {
    let t = FsTree::build(vec![desc("f", false, 1, 0), desc("f", false, 2, 1)], 1);
    assert_eq!(t.list_root(), vec!["f".to_string()]);
    let f = t.lookup(0, &"f".to_string()).unwrap();
    assert_eq!(t.getattr(f).unwrap().size, 2);
    assert_eq!(t.nodes[f].desc_index, Some(1));
}

#[test]
fn tree_explicit_directory_reports_zero_size() {
    let t = FsTree::build(vec![desc("d", true, 4096, 0)], 1);
    let d = t.lookup(0, &"d".to_string()).unwrap();
    let attr = t.getattr(d).unwrap();
    assert!(attr.is_dir);
    assert_eq!(attr.size, 0);
    assert!(t.readdir(d).unwrap().is_empty());
}

#[test]
fn tree_empty_list_has_empty_root() {
    let t = FsTree::build(vec![], 3);
    assert!(t.list_root().is_empty());
    assert_eq!(t.generation, 3);
    assert!(FsTree::empty(0).list_root().is_empty());
}

#[test]
fn tree_lookup_errors() {
    let t = FsTree::build(vec![desc("f", false, 1, 0)], 1);
    assert!(matches!(t.lookup(0, &"g".to_string()), Err(CliprdrError::NotFound)));
    assert!(matches!(t.lookup(99, &"f".to_string()), Err(CliprdrError::NotFound)));
    let f = t.lookup(0, &"f".to_string()).unwrap();
    assert!(matches!(t.lookup(f, &"x".to_string()), Err(CliprdrError::NotDirectory)));
}

#[test]
fn tree_getattr_and_readdir_errors() {
    let t = FsTree::build(vec![desc("f", false, 1, 0)], 1);
    assert!(matches!(t.getattr(5), Err(CliprdrError::NotFound)));
    assert!(matches!(t.readdir(5), Err(CliprdrError::NotFound)));
    let f = t.lookup(0, &"f".to_string()).unwrap();
    assert!(matches!(t.readdir(f), Err(CliprdrError::NotDirectory)));
}

#[test]
fn tree_root_in_order_of_first_appearance() {
    let t = FsTree::build(
        vec![desc("b/x", false, 1, 0), desc("a", false, 2, 1), desc("b/y", false, 3, 2), desc("c", false, 4, 3)],
        1,
    );
    assert_eq!(t.list_root(), vec!["b".to_string(), "a".to_string(), "c".to_string()]);
    let b = t.lookup(0, &"b".to_string()).unwrap();
    assert_eq!(names(&t.readdir(b).unwrap()), vec!["x".to_string(), "y".to_string()]);
}
