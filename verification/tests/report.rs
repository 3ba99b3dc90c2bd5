use repo_scan::classify::{build_info, RepoInfo};
use repo_scan::report::{
    count_dirty, count_local_only, passes_filter, relative_to, select_repos, ScanError,
};

fn info(path: &str, dirty: bool, local_only: bool, ahead: Option<usize>) -> RepoInfo {
    RepoInfo { path: path.to_string(), dirty, local_only, ahead }
}

#[test]
fn build_info_packages_backend_answers() {
    let path = "/scan/a".to_string();

    let clean = build_info(&path, 0, Some(2), None);
    assert!(!clean.dirty);
    assert!(!clean.local_only);
    assert_eq!(clean.path, path);
    assert_eq!(clean.ahead, None);

    let dirty = build_info(&path, 3, Some(0), Some(1));
    assert!(dirty.dirty);
    assert!(dirty.local_only);
    assert_eq!(dirty.ahead, Some(1));

    // an unanswerable remote listing counts as local-only
    let unknown_remotes = build_info(&path, 1, None, None);
    assert!(unknown_remotes.local_only);
}

#[test]
fn filter_predicate_matches_contract() {
    let a = info("/r/a", true, false, Some(2));
    assert!(passes_filter(&a, false, false, false));
    assert!(passes_filter(&a, true, false, false));
    assert!(!passes_filter(&a, false, true, false));
    assert!(passes_filter(&a, true, false, true));

    // absent ahead count is treated as zero: never "unpushed"
    let b = info("/r/b", false, true, None);
    assert!(!passes_filter(&b, false, false, true));
    let c = info("/r/c", false, true, Some(0));
    assert!(!passes_filter(&c, false, false, true));
}

#[test]
fn select_repos_keeps_matches_in_order() {
    let v = vec![
        info("/r/a", true, false, None),
        info("/r/b", false, true, None),
        info("/r/c", true, true, None),
    ];
    let kept = select_repos(v, 3, true, false, false).unwrap();
    let paths: Vec<&str> = kept.iter().map(|i| i.path.as_str()).collect();
    assert_eq!(paths, vec!["/r/a", "/r/c"]);
}

#[test]
fn empty_scan_and_strict_filters_give_different_errors() {
    let none_found = select_repos(Vec::new(), 0, false, false, false);
    assert_eq!(none_found.unwrap_err(), ScanError::NoRepositoriesFound);

    let all_excluded = select_repos(vec![info("/r/a", false, false, None)], 1, true, false, false);
    assert_eq!(all_excluded.unwrap_err(), ScanError::NoMatchingRepositories);

    // repositories were discovered but none could even be classified
    let none_classified = select_repos(Vec::new(), 2, false, false, false);
    assert_eq!(none_classified.unwrap_err(), ScanError::NoMatchingRepositories);
}

#[test]
fn summary_counts() {
    let v = vec![
        info("/r/a", true, false, None),
        info("/r/b", false, true, None),
        info("/r/c", true, true, None),
        info("/r/d", false, false, None),
    ];
    assert_eq!(count_dirty(&v), 2);
    assert_eq!(count_local_only(&v), 2);
    assert_eq!(count_dirty(&Vec::new()), 0);
}

#[test]
fn relative_paths_for_display() {
    let base = "/scan".to_string();
    assert_eq!(relative_to(&"/scan/a/b".to_string(), &base), "a/b");
    assert_eq!(relative_to(&"/scan".to_string(), &base), "");
    assert_eq!(relative_to(&"/elsewhere/repo".to_string(), &base), "/elsewhere/repo");
    // a sibling whose name merely extends the root's name is not inside it
    assert_eq!(relative_to(&"/scanner/a".to_string(), &base), "/scanner/a");
}
