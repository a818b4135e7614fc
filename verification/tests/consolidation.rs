use cleanser::consolidate::deduplicate_nested_paths;
use cleanser::types::{CleanCategory, CleanableItem, RiskLevel};

fn item(path: &str, size: u64) -> CleanableItem {
    CleanableItem {
        path: path.to_string(),
        size,
        category: CleanCategory::AppCache,
        risk_level: RiskLevel::Safe,
        description: String::new(),
    }
}

#[test]
fn children_of_kept_findings_are_dropped() {
    let items = vec![
        item("/a/b/c", 1),
        item("/a", 10),
        item("/a/b", 5),
        item("/x", 3),
    ];
    let r = deduplicate_nested_paths(items);
    let paths: Vec<&str> = r.iter().map(|it| it.path.as_str()).collect();
    assert_eq!(paths, vec!["/a", "/x"]);
}

#[test]
fn consolidation_is_idempotent_on_its_output() {
    let items = vec![
        item("/home/u/proj/node_modules", 2),
        item("/home/u/proj", 9),
        item("/home/u/other", 4),
        item("/home/u/other/cachedir", 1),
    ];
    let once = deduplicate_nested_paths(items);
    let twice = deduplicate_nested_paths(once.clone());
    let a: Vec<&str> = once.iter().map(|it| it.path.as_str()).collect();
    let b: Vec<&str> = twice.iter().map(|it| it.path.as_str()).collect();
    assert_eq!(a, b);
    assert_eq!(a, vec!["/home/u/proj", "/home/u/other"]);
}

#[test]
fn component_boundary_is_respected() {
    // "/a/bb" is not inside "/a/b": the prefix test works on
    // components, not raw characters.
    let items = vec![item("/a/b", 1), item("/a/bb", 2)];
    let r = deduplicate_nested_paths(items);
    assert_eq!(r.len(), 2);
}

#[test]
fn equal_length_paths_keep_their_order() {
    let items = vec![item("/b", 1), item("/a", 2), item("/c", 3)];
    let r = deduplicate_nested_paths(items);
    let paths: Vec<&str> = r.iter().map(|it| it.path.as_str()).collect();
    assert_eq!(paths, vec!["/b", "/a", "/c"]);
}

#[test]
fn shorter_paths_come_first() {
    let items = vec![item("/long/er/path", 1), item("/s", 2), item("/mid/p", 3)];
    let r = deduplicate_nested_paths(items);
    let paths: Vec<&str> = r.iter().map(|it| it.path.as_str()).collect();
    assert_eq!(paths, vec!["/s", "/mid/p", "/long/er/path"]);
}

#[test]
fn equal_paths_are_both_kept() {
    // Consolidation drops strict descendants only; two findings at one
    // path (from two sweeps) both stay.
    let items = vec![item("/a/b", 1), item("/a/b", 2)];
    let r = deduplicate_nested_paths(items);
    assert_eq!(r.len(), 2);
}
