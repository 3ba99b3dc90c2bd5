//! The scanner's view of a directory tree.
//!
//! A `DirNode` records everything the discoverer needs to know about one
//! directory: its absolute path, whether it carries the repository metadata
//! marker (a `.git` entry), and its child directories.  Symbolic links are
//! never represented as children, so a value of this type is always a finite
//! tree and traversal over it always terminates.

use vstd::prelude::*;

verus! {

/// One directory as seen by the scanner.
pub struct DirNode {
    /// Absolute path of this directory.
    pub path: String,
    /// Whether this directory contains repository metadata (a `.git` entry).
    pub has_marker: bool,
    /// Child directories (symbolic links excluded).
    pub children: Vec<DirNode>,
}

/// `a` names a directory strictly inside the directory named `b`:
/// `a` extends `b` with a separator and at least one further character.
pub open spec fn strict_desc(a: Seq<char>, b: Seq<char>) -> bool {
    &&& a.len() > b.len() + 1
    &&& a.subrange(0, b.len() as int) == b
    &&& a[b.len() as int] == '/'
}

/// `a` names the directory `b` itself or a directory strictly inside it.
pub open spec fn under(a: Seq<char>, b: Seq<char>) -> bool {
    a == b || strict_desc(a, b)
}

/// `under` is transitive.
pub proof fn lemma_under_trans(a: Seq<char>, b: Seq<char>, c: Seq<char>)
    requires
        under(a, b),
        under(b, c),
    ensures
        under(a, c),
{
    if a != b && b != c {
        assert forall|i: int| 0 <= i < c.len() implies a[i] == c[i] by {
            assert(a.subrange(0, b.len() as int)[i] == a[i]);
            assert(b.subrange(0, c.len() as int)[i] == b[i]);
        }
        assert(a.subrange(0, c.len() as int) =~= c);
        assert(a.subrange(0, b.len() as int)[c.len() as int] == a[c.len() as int]);
    }
}

/// `child` is the path of a direct child of the directory at `parent`:
/// it is `parent` + `/` + a non-empty name that contains no separator.
pub open spec fn child_path_ok(parent: Seq<char>, child: Seq<char>) -> bool {
    &&& child.len() > parent.len() + 1
    &&& child.subrange(0, parent.len() as int) == parent
    &&& child[parent.len() as int] == '/'
    &&& forall|i: int| parent.len() + 1 <= i < child.len() ==> child[i] != '/'
}

/// Well-formedness of a directory tree: every child's path extends its
/// parent's path by exactly one separator and one name, and sibling paths
/// are pairwise distinct — exactly what a real directory listing yields.
pub open spec fn wf(t: DirNode) -> bool
    decreases t,
{
    &&& forall|i: int|
        0 <= i < t.children.len() ==> child_path_ok(t.path@, #[trigger] t.children[i].path@)
    &&& forall|i: int, j: int|
        0 <= i < j < t.children.len() ==> t.children[i].path@ != t.children[j].path@
    &&& forall|i: int| 0 <= i < t.children.len() ==> wf(#[trigger] t.children[i])
}

} // verus!
