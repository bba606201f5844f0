use treeview::model::{SharedTreeModel, TreeEntry, TreeModel};

fn entry(name: &str, is_dir: bool, depth: u32) -> TreeEntry {
    TreeEntry { name: name.to_string(), is_dir, depth }
}

#[test]
fn empty_model_renders_nothing() {
    let model = TreeModel::new();
    assert_eq!(model.len(), 0);
    assert!(model.lines().is_empty());
}

#[test]
fn lines_indent_by_depth() {
    let mut model = TreeModel::new();
    model.add_entry(entry("root", true, 0));
    model.add_entry(entry("a", true, 1));
    model.add_entry(entry("b.txt", false, 2));
    assert_eq!(model.len(), 3);
    assert_eq!(
        model.lines(),
        vec![
            "├── root".to_string(),
            "│   ├── a".to_string(),
            "│   │   ├── b.txt".to_string(),
        ]
    );
}

#[test]
fn insertion_order_is_kept() {
    let mut model = TreeModel::new();
    model.add_entry(entry("z", false, 0));
    model.add_entry(entry("a", false, 0));
    model.add_entry(entry("m", false, 0));
    assert_eq!(
        model.lines(),
        vec![
            "├── z".to_string(),
            "├── a".to_string(),
            "├── m".to_string(),
        ]
    );
}

#[test]
fn shared_model_snapshots_whole_entries() {
    let shared = SharedTreeModel::new();
    assert!(shared.lines().is_empty());
    shared.add_entry(entry("root", true, 0));
    shared.add_entry(entry("leaf", false, 1));
    assert_eq!(
        shared.lines(),
        vec!["├── root".to_string(), "│   ├── leaf".to_string()]
    );
}

#[test]
fn repeated_snapshots_see_whole_entries() {
    let shared = SharedTreeModel::new();
    for i in 0..100 {
        shared.add_entry(entry("node", false, 1));
        let lines = shared.lines();
        assert_eq!(lines.len(), i + 1);
        for line in lines {
            assert_eq!(line, "│   ├── node");
        }
    }
}
