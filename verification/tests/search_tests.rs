use treeview::search::search_names;

fn paths(names: &[&str]) -> Vec<String> {
    names.iter().map(|n| n.to_string()).collect()
}

#[test]
fn keeps_paths_whose_base_name_matches() {
    let found = search_names(paths(&["/a/foo.txt", "/a/bar"]), "fo".to_string());
    assert_eq!(found, paths(&["/a/foo.txt"]));
}

#[test]
fn empty_search_string_keeps_everything() {
    let found = search_names(paths(&["/a/foo.txt", "/a/bar"]), String::new());
    assert_eq!(found, paths(&["/a/foo.txt", "/a/bar"]));
}

#[test]
fn directory_part_does_not_match() {
    let found = search_names(paths(&["/foo/bar", "/foo/foo2"]), "foo".to_string());
    assert_eq!(found, paths(&["/foo/foo2"]));
}

#[test]
fn trailing_separators_do_not_hide_the_final_component() {
    let found = search_names(paths(&["/a/b/", "/a/c//"]), "b".to_string());
    assert_eq!(found, paths(&["/a/b/"]));
}

#[test]
fn trailing_separator_path_still_ignores_its_directory_part() {
    let found = search_names(paths(&["/a/b/"]), "a".to_string());
    assert!(found.is_empty());
}

#[test]
fn trailing_dot_components_do_not_hide_the_final_component() {
    // As std reads paths: "a/." ends in "a", "x/y/./." ends in "y".
    let found = search_names(paths(&["a/.", "x/y/./.", "b/c/."]), "y".to_string());
    assert_eq!(found, paths(&["x/y/./."]));
    let found = search_names(paths(&["a/."]), "a".to_string());
    assert_eq!(found, paths(&["a/."]));
}

#[test]
fn a_name_of_dots_is_still_a_name() {
    // "..." is an ordinary file name, unlike the "." and ".." components.
    let found = search_names(paths(&["a/..."]), "..".to_string());
    assert_eq!(found, paths(&["a/..."]));
}

#[test]
fn search_longer_than_name_matches_nothing() {
    let found = search_names(paths(&["/a/abc"]), "abcdef".to_string());
    assert!(found.is_empty());
}

#[test]
fn match_may_sit_anywhere_in_the_base_name() {
    let found = search_names(
        paths(&["/x/report-2024.log", "/x/notes.txt", "/x/2024"]),
        "2024".to_string(),
    );
    assert_eq!(found, paths(&["/x/report-2024.log", "/x/2024"]));
}

#[test]
fn order_of_matches_is_kept() {
    let found = search_names(paths(&["/b/z-k", "/a/a-k", "/c/m-k"]), "-k".to_string());
    assert_eq!(found, paths(&["/b/z-k", "/a/a-k", "/c/m-k"]));
}
