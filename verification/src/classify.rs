//! Per-repository classification.
//!
//! Each discovered root is inspected independently: the backend is asked
//! for the working-tree status, the configured remotes, and — only on
//! request, since it is markedly more expensive — the number of commits
//! the current branch is ahead of its upstream.  The answers are packaged
//! into an immutable `RepoInfo`; a repository that cannot be opened or
//! whose status cannot be read yields no record at all, so one bad
//! repository never aborts a bulk scan.

use vstd::prelude::*;
use crate::gitio;

verus! {

/// The classification of one repository root.
#[derive(Debug)]
pub struct RepoInfo {
    /// Absolute path of the repository root.
    pub path: String,
    /// Whether the working tree holds any tracked modification or
    /// untracked top-level entry.
    pub dirty: bool,
    /// Whether the repository has no configured remotes.
    pub local_only: bool,
    /// Commits ahead of the upstream tracking branch; `None` where the
    /// count was not requested or could not be determined.
    pub ahead: Option<usize>,
}

/// A repository whose remotes cannot be listed counts as local-only:
/// a failed listing means the same as an empty one.
pub open spec fn local_only_of(remotes: Option<usize>) -> bool {
    match remotes {
        Option::None => true,
        Option::Some(n) => n == 0,
    }
}

/// The working tree is dirty exactly when the status query reported at
/// least one entry.
pub open spec fn dirty_of(status_entries: usize) -> bool {
    status_entries > 0
}

/// Packages one repository's backend answers into its result record.
pub fn build_info(
    path: &String,
    status_entries: usize,
    remotes: Option<usize>,
    ahead: Option<usize>,
) -> (r: RepoInfo)
    ensures
        r.path@ == path@,
        r.dirty == dirty_of(status_entries),
        r.local_only == local_only_of(remotes),
        r.ahead == ahead,
{
    let local_only = match remotes {
        Option::None => true,
        Option::Some(n) => n == 0,
    };
    RepoInfo { path: path.clone(), dirty: status_entries > 0, local_only, ahead }
}

/// The number of commits on the current branch that its upstream tracking
/// branch lacks.  `None` wherever a step fails: a detached or unborn head,
/// no local branch of that name, no upstream configured or resolvable, or
/// a failed graph walk.
pub fn ahead_of_upstream(repo: &git2::Repository) -> (r: Option<usize>) {
    let head = match gitio::repo_head(repo) {
        Option::Some(h) => h,
        Option::None => { return Option::None },
    };
    let head_oid = match gitio::ref_target(&head) {
        Option::Some(o) => o,
        Option::None => { return Option::None },
    };
    let name = match gitio::ref_shorthand(&head) {
        Option::Some(n) => n,
        Option::None => { return Option::None },
    };
    let branch = match gitio::find_local_branch(repo, &name) {
        Option::Some(b) => b,
        Option::None => { return Option::None },
    };
    let upstream = match gitio::branch_upstream(&branch) {
        Option::Some(u) => u,
        Option::None => { return Option::None },
    };
    let upstream_oid = match gitio::branch_target(&upstream) {
        Option::Some(o) => o,
        Option::None => { return Option::None },
    };
    gitio::ahead_count(repo, head_oid, upstream_oid)
}

/// Classifies the repository rooted at `path`.  The record keeps the given
/// path; the ahead count is only ever present when it was asked for.
/// `None` where the repository cannot be opened or its status cannot be
/// read — never an error, so the rest of a scan goes on.
pub fn inspect_repo(path: &String, compute_unpushed: bool) -> (r: Option<RepoInfo>)
    ensures
        match r {
            Option::Some(info) => {
                &&& info.path@ == path@
                &&& !compute_unpushed ==> info.ahead is None
            },
            Option::None => true,
        },
{
    let repo = match gitio::open_repo(path) {
        Option::Some(r) => r,
        Option::None => { return Option::None },
    };
    let status_entries = match gitio::status_entry_count(&repo) {
        Option::Some(n) => n,
        Option::None => { return Option::None },
    };
    let remotes = gitio::remote_count(&repo);
    let ahead = if compute_unpushed {
        ahead_of_upstream(&repo)
    } else {
        Option::None
    };
    Option::Some(build_info(path, status_entries, remotes, ahead))
}

} // verus!
