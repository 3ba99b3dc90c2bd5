//! Trusted declarations for the version-control backend.
//!
//! Every query the classifier makes against a repository goes through one
//! of the wrappers below; each makes a single backend call and converts
//! its result to a plain value.  All of them are best-effort: a failed
//! query becomes `None`, never an error that would abort a bulk scan.

use vstd::prelude::*;

verus! {

#[verifier::external_type_specification]
#[verifier::external_body]
pub struct ExRepository(git2::Repository);

#[verifier::external_type_specification]
#[verifier::external_body]
pub struct ExOid(git2::Oid);

#[verifier::external_type_specification]
#[verifier::external_body]
pub struct ExReference<'a>(git2::Reference<'a>);

#[verifier::external_type_specification]
#[verifier::external_body]
pub struct ExBranch<'a>(git2::Branch<'a>);

/// Relies on git2::Repository::open: the repository whose root is `path`,
/// `None` where none can be opened there.
#[verifier::external_body]
pub(crate) fn open_repo(path: &String) -> Option<git2::Repository> {
    git2::Repository::open(path.as_str()).ok()
}

/// Relies on git2::Repository::statuses, queried with options {include
/// untracked top-level entries, do not recurse into untracked directories,
/// exclude submodules}: the number of status entries the working tree
/// shows, `None` where the query fails.
#[verifier::external_body]
pub(crate) fn status_entry_count(repo: &git2::Repository) -> Option<usize> {
    let mut opts = git2::StatusOptions::new();
    opts.include_untracked(true).recurse_untracked_dirs(false).exclude_submodules(true);
    match repo.statuses(Some(&mut opts)) {
        Ok(statuses) => Some(statuses.len()),
        Err(_) => None,
    }
}

/// Relies on git2::Repository::remotes: the number of configured remotes,
/// `None` where the list cannot be read.
#[verifier::external_body]
pub(crate) fn remote_count(repo: &git2::Repository) -> Option<usize> {
    match repo.remotes() {
        Ok(remotes) => Some(remotes.len()),
        Err(_) => None,
    }
}

/// Relies on git2::Repository::head: the resolved reference HEAD points
/// at, `None` where it cannot be retrieved or resolved (an unborn branch).
#[verifier::external_body]
pub(crate) fn repo_head<'r>(repo: &'r git2::Repository) -> Option<git2::Reference<'r>> {
    repo.head().ok()
}

/// Relies on git2::Reference::target: the commit id the reference points
/// to directly, `None` for a symbolic reference.
#[verifier::external_body]
pub(crate) fn ref_target(r: &git2::Reference<'_>) -> Option<git2::Oid> {
    r.target()
}

/// Relies on git2::Reference::shorthand: the reference's human-readable
/// short name, `None` where it is not valid text.
#[verifier::external_body]
pub(crate) fn ref_shorthand(r: &git2::Reference<'_>) -> Option<String> {
    match r.shorthand() {
        Ok(name) => Some(name.to_string()),
        Err(_) => None,
    }
}

/// Relies on git2::Repository::find_branch with BranchType::Local: the
/// local branch of that name, `None` where there is none.
#[verifier::external_body]
pub(crate) fn find_local_branch<'r>(
    repo: &'r git2::Repository,
    name: &String,
) -> Option<git2::Branch<'r>> {
    repo.find_branch(name.as_str(), git2::BranchType::Local).ok()
}

/// Relies on git2::Branch::upstream: the branch's configured upstream
/// tracking branch, `None` where none is configured or resolvable.
#[verifier::external_body]
pub(crate) fn branch_upstream<'r>(b: &git2::Branch<'r>) -> Option<git2::Branch<'r>> {
    b.upstream().ok()
}

/// Relies on git2::Branch::get and git2::Reference::target: the commit id
/// the branch points to, `None` for a symbolic reference.
#[verifier::external_body]
pub(crate) fn branch_target(b: &git2::Branch<'_>) -> Option<git2::Oid> {
    b.get().target()
}

/// Relies on git2::Repository::graph_ahead_behind: the number of commits
/// reachable from `local` but not from `upstream`, `None` where the walk
/// fails.
#[verifier::external_body]
pub(crate) fn ahead_count(
    repo: &git2::Repository,
    local: git2::Oid,
    upstream: git2::Oid,
) -> Option<usize> {
    match repo.graph_ahead_behind(local, upstream) {
        Ok(counts) => Some(counts.0),
        Err(_) => None,
    }
}

} // verus!
