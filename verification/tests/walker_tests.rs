use treeview::model::TreeModel;
use treeview::walker::{collect_dirs, FsNode};

fn dir(name: &str, children: Vec<FsNode>) -> FsNode {
    FsNode {
        name: name.to_string(),
        is_dir: true,
        is_symlink: false,
        listable: true,
        children,
    }
}

fn file(name: &str) -> FsNode {
    FsNode {
        name: name.to_string(),
        is_dir: false,
        is_symlink: false,
        listable: false,
        children: vec![],
    }
}

#[test]
fn root_with_empty_dir_and_file() {
    let root = dir("t", vec![dir("a", vec![]), file("b.txt")]);
    let mut model = TreeModel::new();
    let dirs = collect_dirs(&"/tmp/t".to_string(), &root, &mut model, 0);
    assert_eq!(
        model.lines(),
        vec![
            "├── t".to_string(),
            "│   ├── a".to_string(),
            "│   ├── b.txt".to_string(),
        ]
    );
    assert_eq!(dirs, vec!["/tmp/t/a".to_string(), "/tmp/t/b.txt".to_string()]);
}

#[test]
fn pre_order_and_depths() {
    let root = dir(
        "top",
        vec![
            dir("a", vec![dir("b", vec![file("c.txt")]), file("d.txt")]),
            file("e.txt"),
        ],
    );
    let mut model = TreeModel::new();
    let dirs = collect_dirs(&"/x/top".to_string(), &root, &mut model, 0);
    assert_eq!(
        model.lines(),
        vec![
            "├── top".to_string(),
            "│   ├── a".to_string(),
            "│   │   ├── b".to_string(),
            "│   │   │   ├── c.txt".to_string(),
            "│   │   ├── d.txt".to_string(),
            "│   ├── e.txt".to_string(),
        ]
    );
    // Each visited path has one component per depth level below the root.
    assert_eq!(
        dirs,
        vec![
            "/x/top/a".to_string(),
            "/x/top/a/b".to_string(),
            "/x/top/a/b/c.txt".to_string(),
            "/x/top/a/d.txt".to_string(),
            "/x/top/e.txt".to_string(),
        ]
    );
}

#[test]
fn symlink_to_directory_is_a_leaf() {
    // The link reads as a directory but is never descended into: one entry,
    // no descendants, even though the target has children.
    let linked = FsNode {
        name: "link".to_string(),
        is_dir: true,
        is_symlink: true,
        listable: true,
        children: vec![file("hidden.txt")],
    };
    let root = dir("t", vec![linked]);
    let mut model = TreeModel::new();
    let dirs = collect_dirs(&"/t".to_string(), &root, &mut model, 0);
    assert_eq!(
        model.lines(),
        vec!["├── t".to_string(), "│   ├── link".to_string()]
    );
    assert_eq!(dirs, vec!["/t/link".to_string()]);
}

#[test]
fn unreadable_subdirectory_keeps_siblings_complete() {
    let unreadable = FsNode {
        name: "locked".to_string(),
        is_dir: true,
        is_symlink: false,
        listable: false,
        children: vec![file("never_seen.txt")],
    };
    let root = dir("t", vec![unreadable, dir("ok", vec![file("seen.txt")])]);
    let mut model = TreeModel::new();
    let dirs = collect_dirs(&"/t".to_string(), &root, &mut model, 0);
    assert_eq!(
        model.lines(),
        vec![
            "├── t".to_string(),
            "│   ├── locked".to_string(),
            "│   ├── ok".to_string(),
            "│   │   ├── seen.txt".to_string(),
        ]
    );
    assert_eq!(
        dirs,
        vec![
            "/t/locked".to_string(),
            "/t/ok".to_string(),
            "/t/ok/seen.txt".to_string(),
        ]
    );
}

#[test]
fn unreadable_root_yields_nothing() {
    let root = FsNode {
        name: "gone".to_string(),
        is_dir: true,
        is_symlink: false,
        listable: false,
        children: vec![],
    };
    let mut model = TreeModel::new();
    let dirs = collect_dirs(&"/gone".to_string(), &root, &mut model, 0);
    assert!(model.lines().is_empty());
    assert!(dirs.is_empty());
}
