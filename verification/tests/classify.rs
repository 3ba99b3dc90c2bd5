use rayon::prelude::ParallelIterator;
use rayon::iter::IntoParallelRefIterator;
use repo_scan::classify::inspect_repo;
use repo_scan::report::passes_filter;

fn setup_repo(tmp: &std::path::Path, name: &str, add_remote: bool) -> std::path::PathBuf {
    let dir = tmp.join(name);
    let repo = git2::Repository::init(&dir).unwrap();
    {
        // an initial (empty) commit, so status queries work cleanly
        let mut index = repo.index().unwrap();
        let tree_id = index.write_tree().unwrap();
        let tree = repo.find_tree(tree_id).unwrap();
        let sig = git2::Signature::now("tester", "tester@example.com").unwrap();
        repo.commit(Some("HEAD"), &sig, &sig, "init", &tree, &[]).unwrap();
    }
    if add_remote {
        repo.remote("origin", "https://example.com/repo.git").unwrap();
    }
    dir
}

fn path_string(p: &std::path::Path) -> String {
    p.to_str().unwrap().to_string()
}

#[test]
fn inspect_detects_dirty() {
    let tmp = tempfile::tempdir().unwrap();
    let clean = setup_repo(tmp.path(), "clean", true);
    let dirty = setup_repo(tmp.path(), "dirty", true);
    // one untracked file at the top level makes the working tree dirty
    let _untracked = tempfile::NamedTempFile::new_in(&dirty).unwrap();

    assert!(!inspect_repo(&path_string(&clean), false).unwrap().dirty);
    assert!(inspect_repo(&path_string(&dirty), false).unwrap().dirty);
}

#[test]
fn inspect_detects_local_only() {
    let tmp = tempfile::tempdir().unwrap();
    let with_remote = setup_repo(tmp.path(), "remote", true);
    let no_remote = setup_repo(tmp.path(), "local", false);

    assert!(!inspect_repo(&path_string(&with_remote), false).unwrap().local_only);
    assert!(inspect_repo(&path_string(&no_remote), false).unwrap().local_only);
}

#[test]
fn inspect_of_no_repository_is_none() {
    let tmp = tempfile::tempdir().unwrap();
    let plain = tempfile::Builder::new().tempdir_in(tmp.path()).unwrap();
    assert!(inspect_repo(&path_string(plain.path()), false).is_none());
}

#[test]
fn ahead_absent_without_upstream_and_excluded_by_unpushed_filter() {
    let tmp = tempfile::tempdir().unwrap();
    let repo = setup_repo(tmp.path(), "plain", true);

    let info = inspect_repo(&path_string(&repo), true).unwrap();
    // no upstream tracking branch is configured, so the count is absent,
    // and the unpushed-only filter conservatively excludes the repository
    assert_eq!(info.ahead, None);
    assert!(!passes_filter(&info, false, false, true));
}

#[test]
fn ahead_never_computed_unless_requested() {
    let tmp = tempfile::tempdir().unwrap();
    let repo = setup_repo(tmp.path(), "quiet", true);
    let info = inspect_repo(&path_string(&repo), false).unwrap();
    assert_eq!(info.ahead, None);
    assert_eq!(info.path, path_string(&repo));
}

#[test]
fn parallel_inspection_matches_sequential() {
    let tmp = tempfile::tempdir().unwrap();
    let mut paths: Vec<String> = Vec::new();
    for (name, remote) in [("one", true), ("two", false), ("three", true), ("four", false)] {
        paths.push(path_string(&setup_repo(tmp.path(), name, remote)));
    }
    let dirty = setup_repo(tmp.path(), "five", true);
    let _untracked = tempfile::NamedTempFile::new_in(&dirty).unwrap();
    paths.push(path_string(&dirty));

    let sequential: Vec<(String, bool, bool, Option<usize>)> = paths
        .iter()
        .filter_map(|p| inspect_repo(p, false))
        .map(|i| (i.path, i.dirty, i.local_only, i.ahead))
        .collect();
    let mut parallel: Vec<(String, bool, bool, Option<usize>)> = paths
        .par_iter()
        .filter_map(|p| inspect_repo(p, false))
        .map(|i| (i.path, i.dirty, i.local_only, i.ahead))
        .collect();

    assert_eq!(sequential.len(), 5);
    parallel.sort();
    let mut sequential_sorted = sequential.clone();
    sequential_sorted.sort();
    assert_eq!(parallel, sequential_sorted);
}
