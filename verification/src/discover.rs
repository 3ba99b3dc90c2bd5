//! Depth-bounded repository discovery over a directory tree.
//!
//! A directory is recorded as a repository root when it carries the metadata
//! marker; its subtree is then pruned, so a repository nested inside another
//! is never reported.  Unmarked directories are descended into while the
//! depth budget lasts.  The collected roots are returned sorted in
//! lexicographic path order, whatever order the tree listed them in.

use vstd::prelude::*;
use crate::tree::{DirNode, wf, child_path_ok, strict_desc, under, lemma_under_trans};
use crate::order::{views, sorted_paths, sort_paths};

verus! {

/// The repository roots discovered below `t` with `depth` levels of descent
/// left, in depth-first order: `t` itself if it is marked; nothing further
/// below a marked directory and nothing once the depth budget is spent.
pub open spec fn repos_of(t: DirNode, depth: nat) -> Seq<Seq<char>>
    decreases t, 0nat,
{
    if t.has_marker {
        seq![t.path@]
    } else if depth == 0 {
        seq![]
    } else {
        repos_of_children(t.children@, (depth - 1) as nat)
    }
}

/// The repository roots discovered below each of `cs` in turn.
pub open spec fn repos_of_children(cs: Seq<DirNode>, depth: nat) -> Seq<Seq<char>>
    decreases cs, 1nat,
{
    if cs.len() == 0 {
        seq![]
    } else {
        repos_of(cs[0], depth) + repos_of_children(cs.drop_first(), depth)
    }
}

proof fn lemma_repos_children_push(cs: Seq<DirNode>, c: DirNode, depth: nat)
    ensures
        repos_of_children(cs.push(c), depth) == repos_of_children(cs, depth) + repos_of(c, depth),
    decreases cs.len(),
{
    if cs.len() == 0 {
        assert(cs.push(c)[0] == c);
        assert(cs.push(c).drop_first() =~= Seq::<DirNode>::empty());
        assert(repos_of_children(Seq::<DirNode>::empty(), depth) == Seq::<Seq<char>>::empty());
        assert(repos_of_children(cs.push(c), depth) == repos_of(c, depth) + Seq::<
            Seq<char>,
        >::empty());
        assert(repos_of_children(cs, depth) == Seq::<Seq<char>>::empty());
        assert(repos_of_children(cs.push(c), depth) =~= repos_of_children(cs, depth) + repos_of(
            c,
            depth,
        ));
    } else {
        assert(cs.push(c)[0] == cs[0]);
        assert(cs.push(c).drop_first() =~= cs.drop_first().push(c));
        lemma_repos_children_push(cs.drop_first(), c, depth);
        assert(repos_of_children(cs.push(c), depth) =~= repos_of_children(cs, depth) + repos_of(
            c,
            depth,
        ));
    }
}

proof fn lemma_children_contains(cs: Seq<DirNode>, depth: nat, p: Seq<char>)
    ensures
        repos_of_children(cs, depth).contains(p) <==> exists|i: int|
            0 <= i < cs.len() && repos_of(#[trigger] cs[i], depth).contains(p),
    decreases cs.len(),
{
    if cs.len() > 0 {
        lemma_children_contains(cs.drop_first(), depth, p);
        assert(repos_of_children(cs, depth) == repos_of(cs[0], depth) + repos_of_children(
            cs.drop_first(),
            depth,
        ));
        if repos_of_children(cs, depth).contains(p) {
            if repos_of(cs[0], depth).contains(p) {
            } else {
                assert(repos_of_children(cs.drop_first(), depth).contains(p)) by {
                    let k = choose|k: int|
                        0 <= k < repos_of_children(cs, depth).len() && repos_of_children(
                            cs,
                            depth,
                        )[k] == p;
                    assert(repos_of_children(cs.drop_first(), depth)[k - repos_of(
                        cs[0],
                        depth,
                    ).len()] == p);
                }
                let i = choose|i: int|
                    0 <= i < cs.drop_first().len() && repos_of(
                        #[trigger] cs.drop_first()[i],
                        depth,
                    ).contains(p);
                assert(cs.drop_first()[i] == cs[i + 1]);
            }
        }
        if exists|i: int| 0 <= i < cs.len() && repos_of(#[trigger] cs[i], depth).contains(p) {
            let i = choose|i: int|
                0 <= i < cs.len() && repos_of(#[trigger] cs[i], depth).contains(p);
            if i == 0 {
                let k = choose|k: int|
                    0 <= k < repos_of(cs[0], depth).len() && repos_of(cs[0], depth)[k] == p;
                assert(repos_of_children(cs, depth)[k] == p);
            } else {
                assert(cs.drop_first()[i - 1] == cs[i]);
                assert(repos_of_children(cs.drop_first(), depth).contains(p));
                let k = choose|k: int|
                    0 <= k < repos_of_children(cs.drop_first(), depth).len()
                        && repos_of_children(cs.drop_first(), depth)[k] == p;
                assert(repos_of_children(cs, depth)[k + repos_of(cs[0], depth).len()] == p);
            }
        }
    }
}

/// Every discovered root lies at or strictly below the scanned directory.
pub proof fn lemma_results_under_root(t: DirNode, depth: nat, p: Seq<char>)
    requires
        wf(t),
        repos_of(t, depth).contains(p),
    ensures
        under(p, t.path@),
    decreases t,
{
    if t.has_marker {
        assert(p == t.path@);
    } else if depth == 0 {
        assert(false);
    } else {
        lemma_children_contains(t.children@, (depth - 1) as nat, p);
        let i = choose|i: int|
            0 <= i < t.children@.len() && repos_of(#[trigger] t.children@[i], (depth
                - 1) as nat).contains(p);
        assert(wf(t.children[i]));
        lemma_results_under_root(t.children@[i], (depth - 1) as nat, p);
        assert(child_path_ok(t.path@, t.children[i].path@));
        assert(strict_desc(t.children@[i].path@, t.path@));
        lemma_under_trans(p, t.children@[i].path@, t.path@);
    }
}

/// Results that lie under two distinct sibling directories can never be
/// nested in one another, nor equal: the sibling paths diverge inside a
/// name, where no separator occurs.
proof fn lemma_sibling_blocks(
    parent: Seq<char>,
    c1: Seq<char>,
    c2: Seq<char>,
    p1: Seq<char>,
    p2: Seq<char>,
)
    requires
        child_path_ok(parent, c1),
        child_path_ok(parent, c2),
        c1 != c2,
        under(p1, c1),
        under(p2, c2),
    ensures
        !strict_desc(p1, p2),
        p1 != p2,
{
    if p1 == p2 || strict_desc(p1, p2) {
        lemma_under_trans(p1, p2, c2);
        // p1 now lies under both c1 and c2, so both are prefixes of p1.
        assert(p1.len() >= c1.len() && p1.subrange(0, c1.len() as int) == c1);
        assert(p1.len() >= c2.len() && p1.subrange(0, c2.len() as int) == c2);
        if c1.len() == c2.len() {
            assert(c1 =~= c2);
        } else if c1.len() < c2.len() {
            // p1 is strictly longer than c1, so a separator follows c1 in p1,
            // yet that position falls inside c2's final name.
            assert(p1[c1.len() as int] == '/');
            assert(p1.subrange(0, c2.len() as int)[c1.len() as int] == p1[c1.len() as int]);
            assert(c2[c1.len() as int] != '/');
        } else {
            assert(p1[c2.len() as int] == '/');
            assert(p1.subrange(0, c1.len() as int)[c2.len() as int] == p1[c2.len() as int]);
            assert(c1[c2.len() as int] != '/');
        }
    }
}

/// No discovered root is nested inside another discovered root: a marked
/// directory's subtree is pruned, so two distinct results never stand in
/// the ancestor relation.
pub proof fn lemma_no_nested_results(t: DirNode, depth: nat, p1: Seq<char>, p2: Seq<char>)
    requires
        wf(t),
        repos_of(t, depth).contains(p1),
        repos_of(t, depth).contains(p2),
        p1 != p2,
    ensures
        !strict_desc(p1, p2),
    decreases t,
{
    if t.has_marker {
        assert(p1 == t.path@ && p2 == t.path@);
    } else if depth == 0 {
        assert(false);
    } else {
        let d = (depth - 1) as nat;
        lemma_children_contains(t.children@, d, p1);
        lemma_children_contains(t.children@, d, p2);
        let i1 = choose|i: int|
            0 <= i < t.children@.len() && repos_of(#[trigger] t.children@[i], d).contains(p1);
        let i2 = choose|i: int|
            0 <= i < t.children@.len() && repos_of(#[trigger] t.children@[i], d).contains(p2);
        assert(wf(t.children[i1]) && wf(t.children[i2]));
        if i1 == i2 {
            lemma_no_nested_results(t.children@[i1], d, p1, p2);
        } else {
            assert(t.children@[i1].path@ != t.children@[i2].path@);
            lemma_results_under_root(t.children@[i1], d, p1);
            lemma_results_under_root(t.children@[i2], d, p2);
            assert(child_path_ok(t.path@, t.children[i1].path@));
            assert(child_path_ok(t.path@, t.children[i2].path@));
            lemma_sibling_blocks(
                t.path@,
                t.children@[i1].path@,
                t.children@[i2].path@,
                p1,
                p2,
            );
        }
    }
}

/// `p` is a repository root reachable from `t` within `depth` levels:
/// it is the closest marked directory on its branch, and every step down
/// to it passes only unmarked directories while the depth budget lasts.
pub open spec fn marked_within(t: DirNode, depth: nat, p: Seq<char>) -> bool
    decreases t,
{
    if t.has_marker {
        p == t.path@
    } else if depth == 0 {
        false
    } else {
        exists|i: int|
            0 <= i < t.children.len() && marked_within(
                #[trigger] t.children[i],
                (depth - 1) as nat,
                p,
            )
    }
}

/// Discovery is exact: it reports the repository roots reachable within
/// the depth bound, and none beyond it.
pub proof fn lemma_discovery_exact(t: DirNode, depth: nat, p: Seq<char>)
    ensures
        repos_of(t, depth).contains(p) <==> marked_within(t, depth, p),
    decreases t,
{
    if t.has_marker {
        assert(repos_of(t, depth)[0] == t.path@);
    } else if depth == 0 {
    } else {
        let d = (depth - 1) as nat;
        lemma_children_contains(t.children@, d, p);
        assert forall|i: int| 0 <= i < t.children@.len() implies (repos_of(
            #[trigger] t.children@[i],
            d,
        ).contains(p) <==> marked_within(t.children@[i], d, p)) by {
            lemma_discovery_exact(t.children@[i], d, p);
        }
    }
}

/// Raising the depth bound never loses a result: every root reachable
/// within `d1` levels is still reachable within `d2 >= d1` levels.
pub proof fn lemma_deeper_finds_more(t: DirNode, d1: nat, d2: nat, p: Seq<char>)
    requires
        d1 <= d2,
        repos_of(t, d1).contains(p),
    ensures
        repos_of(t, d2).contains(p),
    decreases t,
{
    lemma_discovery_exact(t, d1, p);
    lemma_discovery_exact(t, d2, p);
    lemma_marked_within_monotone(t, d1, d2, p);
}

proof fn lemma_marked_within_monotone(t: DirNode, d1: nat, d2: nat, p: Seq<char>)
    requires
        d1 <= d2,
        marked_within(t, d1, p),
    ensures
        marked_within(t, d2, p),
    decreases t,
{
    if !t.has_marker {
        let i = choose|i: int|
            0 <= i < t.children.len() && marked_within(#[trigger] t.children[i], (d1 - 1) as nat, p);
        lemma_marked_within_monotone(t.children@[i], (d1 - 1) as nat, (d2 - 1) as nat, p);
    }
}

/// Collects the repository roots below `t`, depth first, unsorted.
pub fn collect_repos(t: &DirNode, depth_left: usize) -> (out: Vec<String>)
    ensures
        views(out@) == repos_of(*t, depth_left as nat),
    decreases *t,
{
    let mut out: Vec<String> = Vec::new();
    if t.has_marker {
        out.push(t.path.clone());
        proof {
            assert(views(out@) =~= repos_of(*t, depth_left as nat));
        }
        return out;
    }
    if depth_left == 0 {
        proof {
            assert(views(out@) =~= repos_of(*t, depth_left as nat));
        }
        return out;
    }
    let mut i: usize = 0;
    proof {
        assert(t.children@.subrange(0, 0) =~= Seq::<DirNode>::empty());
        assert(views(out@) =~= repos_of_children(t.children@.subrange(0, 0), (depth_left
            - 1) as nat));
    }
    while i < t.children.len()
        invariant
            i <= t.children.len(),
            depth_left >= 1,
            views(out@) == repos_of_children(
                t.children@.subrange(0, i as int),
                (depth_left - 1) as nat,
            ),
        decreases t.children.len() - i,
    {
        let ghost prefix = t.children@.subrange(0, i as int);
        let mut sub = collect_repos(&t.children[i], depth_left - 1);
        out.append(&mut sub);
        proof {
            lemma_repos_children_push(prefix, t.children@[i as int], (depth_left - 1) as nat);
            assert(prefix.push(t.children@[i as int]) =~= t.children@.subrange(0, i + 1));
            assert(views(out@) =~= repos_of_children(
                t.children@.subrange(0, i + 1),
                (depth_left - 1) as nat,
            ));
        }
        i += 1;
    }
    proof {
        assert(t.children@.subrange(0, t.children@.len() as int) =~= t.children@);
    }
    out
}

/// Discovers the repository roots reachable from `t` within `max_depth`
/// levels of descent, returned in lexicographic path order: exactly the
/// roots of `repos_of`, each as often as the tree holds it.
pub fn find_repos(t: &DirNode, max_depth: usize) -> (r: Vec<String>)
    ensures
        sorted_paths(views(r@)),
        views(r@).to_multiset() == repos_of(*t, max_depth as nat).to_multiset(),
        forall|p: Seq<char>| views(r@).contains(p) <==> repos_of(*t, max_depth as nat).contains(p),
        wf(*t) ==> forall|p1: Seq<char>, p2: Seq<char>|
            views(r@).contains(p1) && views(r@).contains(p2) && p1 != p2 ==> !strict_desc(p1, p2),
{
    let collected = collect_repos(t, max_depth);
    let r = sort_paths(collected);
    proof {
        broadcast use vstd::seq_lib::group_to_multiset_ensures;

        assert forall|p: Seq<char>| views(r@).contains(p) <==> repos_of(
            *t,
            max_depth as nat,
        ).contains(p) by {
            assert(views(r@).contains(p) <==> views(r@).to_multiset().count(p) > 0);
            assert(repos_of(*t, max_depth as nat).contains(p) <==> repos_of(
                *t,
                max_depth as nat,
            ).to_multiset().count(p) > 0);
        }
        if wf(*t) {
            assert forall|p1: Seq<char>, p2: Seq<char>|
                views(r@).contains(p1) && views(r@).contains(p2) && p1 != p2 implies !strict_desc(
                p1,
                p2,
            ) by {
                lemma_no_nested_results(*t, max_depth as nat, p1, p2);
            }
        }
    }
    r
}

} // verus!
