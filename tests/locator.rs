use std::cell::RefCell;
use whatson_launcher::locator::{discover_root, is_project_root, search_candidates};
use whatson_launcher::paths::join_path;

fn s(x: &str) -> String {
    x.to_string()
}

fn files(list: &[&str]) -> Vec<String> {
    list.iter().map(|x| x.to_string()).collect()
}

fn root_files(root: &str) -> Vec<String> {
    vec![
        format!("{root}/CMakeLists.txt"),
        format!("{root}/src/app/main.cpp"),
    ]
}

#[test]
fn join_inserts_one_separator() {
    assert_eq!(join_path(&s("/a"), "b/c"), "/a/b/c");
    assert_eq!(join_path(&s("/a/"), "b"), "/a/b");
    assert_eq!(join_path(&s(""), "b"), "b");
    assert_eq!(join_path(&s("/"), "build"), "/build");
}

#[test]
fn candidates_keep_first_occurrence_in_priority_order() {
    let order = search_candidates(
        Some(s("/r")),
        files(&["/r/x", "/r", "/"]),
        s("/r"),
    );
    assert_eq!(order, files(&["/r", "/r/x", "/"]));
}

#[test]
fn candidates_without_override_list_ancestors_then_fallback() {
    let order = search_candidates(None, files(&["/w/a", "/w", "/"]), s("/f"));
    assert_eq!(order, files(&["/w/a", "/w", "/", "/f"]));
}

#[test]
fn project_root_needs_both_markers() {
    let only_config = files(&["/p/CMakeLists.txt"]);
    assert!(!is_project_root(&s("/p"), &|p: &String| only_config.contains(p)));
    let only_entry = files(&["/p/src/app/main.cpp"]);
    assert!(!is_project_root(&s("/p"), &|p: &String| only_entry.contains(p)));
    let both = root_files("/p");
    assert!(is_project_root(&s("/p"), &|p: &String| both.contains(p)));
    assert!(!is_project_root(&s("/q"), &|p: &String| both.contains(p)));
}

#[test]
fn override_root_wins_over_ancestors() {
    let mut fs = root_files("/o");
    fs.extend(root_files("/w"));
    let found = discover_root(
        Some(s("/o")),
        files(&["/w/a", "/w", "/"]),
        s("/f"),
        &|p: &String| fs.contains(p),
    );
    assert_eq!(found, Some(s("/o")));
}

#[test]
fn invalid_override_falls_back_to_ancestors() {
    let fs = root_files("/w");
    let found = discover_root(
        Some(s("/o")),
        files(&["/w/a", "/w", "/"]),
        s("/f"),
        &|p: &String| fs.contains(p),
    );
    assert_eq!(found, Some(s("/w")));
}

#[test]
fn nested_working_directory_finds_nearest_root() {
    let mut fs = root_files("/p");
    fs.extend(root_files(""));
    let found = discover_root(
        None,
        files(&["/p/src/app", "/p/src", "/p", "/"]),
        s("/f"),
        &|p: &String| fs.contains(p),
    );
    assert_eq!(found, Some(s("/p")));
}

#[test]
fn working_directory_that_is_the_root_is_found() {
    let fs = root_files("/p");
    let found = discover_root(None, files(&["/p", "/"]), s("/f"), &|p: &String| fs.contains(p));
    assert_eq!(found, Some(s("/p")));
}

#[test]
fn fallback_is_tried_last() {
    let fs = root_files("/f");
    let found = discover_root(None, files(&["/w", "/"]), s("/f"), &|p: &String| fs.contains(p));
    assert_eq!(found, Some(s("/f")));
}

#[test]
fn no_valid_candidate_gives_none() {
    let fs = files(&["/w/CMakeLists.txt", "/x/src/app/main.cpp"]);
    let found = discover_root(
        Some(s("/x")),
        files(&["/w/a", "/w", "/"]),
        s("/f"),
        &|p: &String| fs.contains(p),
    );
    assert_eq!(found, None);
}

#[test]
fn override_equal_to_ancestor_is_tested_once() {
    let probes: RefCell<Vec<String>> = RefCell::new(Vec::new());
    let found = discover_root(
        Some(s("/r")),
        files(&["/r/x", "/r", "/"]),
        s("/r"),
        &|p: &String| {
            probes.borrow_mut().push(p.clone());
            false
        },
    );
    assert_eq!(found, None);
    let probes = probes.into_inner();
    let config_probes = probes.iter().filter(|p| p.as_str() == "/r/CMakeLists.txt").count();
    assert_eq!(config_probes, 1);
    assert_eq!(probes, files(&["/r/CMakeLists.txt", "/r/x/CMakeLists.txt", "/CMakeLists.txt"]));
}

#[test]
fn search_stops_at_first_root() {
    let probes: RefCell<Vec<String>> = RefCell::new(Vec::new());
    let fs = root_files("/w");
    let found = discover_root(None, files(&["/w", "/"]), s("/f"), &|p: &String| {
        probes.borrow_mut().push(p.clone());
        fs.contains(p)
    });
    assert_eq!(found, Some(s("/w")));
    assert_eq!(probes.into_inner(), files(&["/w/CMakeLists.txt", "/w/src/app/main.cpp"]));
}
