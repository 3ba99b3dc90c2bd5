use repo_scan::discover::find_repos;
use repo_scan::tree::DirNode;

fn node(path: &str, has_marker: bool, children: Vec<DirNode>) -> DirNode {
    DirNode { path: path.to_string(), has_marker, children }
}

#[test]
fn find_repos_respects_depth() {
    // scan root holding repository `a` and repository `deep/nested/b`
    let root = node(
        "/scan",
        false,
        vec![
            node("/scan/a", true, vec![]),
            node(
                "/scan/deep",
                false,
                vec![node(
                    "/scan/deep/nested",
                    false,
                    vec![node("/scan/deep/nested/b", true, vec![])],
                )],
            ),
        ],
    );

    assert_eq!(find_repos(&root, 1).len(), 1);
    assert_eq!(find_repos(&root, 3).len(), 2);
}

#[test]
fn find_repos_skips_nested_inside_repo() {
    // `parent` carries the marker; `parent/child` carries one of its own
    // (a `child/.git` entry), but the subtree of `parent` is pruned.
    let root = node(
        "/scan",
        false,
        vec![node(
            "/scan/parent",
            true,
            vec![node("/scan/parent/child", true, vec![])],
        )],
    );

    assert_eq!(find_repos(&root, 5).len(), 1);
    assert_eq!(find_repos(&root, 5)[0], "/scan/parent");
}

#[test]
fn depth_one_sees_only_shallow_repo() {
    let root = node(
        "/scan",
        false,
        vec![
            node("/scan/a", true, vec![]),
            node(
                "/scan/deep",
                false,
                vec![node(
                    "/scan/deep/nested",
                    false,
                    vec![node("/scan/deep/nested/b", true, vec![])],
                )],
            ),
        ],
    );

    assert_eq!(find_repos(&root, 1), vec!["/scan/a".to_string()]);
    assert_eq!(
        find_repos(&root, 3),
        vec!["/scan/a".to_string(), "/scan/deep/nested/b".to_string()]
    );
}

#[test]
fn results_come_sorted_whatever_the_listing_order() {
    let root = node(
        "/scan",
        false,
        vec![
            node("/scan/zeta", true, vec![]),
            node("/scan/mid", true, vec![]),
            node("/scan/alpha", true, vec![]),
        ],
    );

    assert_eq!(
        find_repos(&root, 1),
        vec![
            "/scan/alpha".to_string(),
            "/scan/mid".to_string(),
            "/scan/zeta".to_string()
        ]
    );
}

#[test]
fn root_itself_as_repo_is_the_only_result() {
    let root = node(
        "/scan",
        true,
        vec![node("/scan/inner", true, vec![])],
    );
    assert_eq!(find_repos(&root, 0), vec!["/scan".to_string()]);
    assert_eq!(find_repos(&root, 7), vec!["/scan".to_string()]);
}

#[test]
fn depth_zero_keeps_marked_root_but_descends_nowhere() {
    let root = node("/scan", false, vec![node("/scan/a", true, vec![])]);
    assert_eq!(find_repos(&root, 0).len(), 0);
    assert_eq!(find_repos(&root, 1).len(), 1);
}

#[test]
fn empty_tree_yields_nothing() {
    let root = node("/scan", false, vec![]);
    assert!(find_repos(&root, 3).is_empty());
}
