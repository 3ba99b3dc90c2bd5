//! Filtering and report preparation.
//!
//! The orchestrator hands every classified repository through the filter
//! predicate, decides which error an empty report means, shows each path
//! relative to the scan root, and closes with summary counts.

use vstd::prelude::*;
use vstd::string::StrSliceExecFns;
use crate::classify::RepoInfo;
use crate::tree::strict_desc;

verus! {

/// The whole-scan failures: everything below them stays best-effort.
#[derive(Clone, Copy, Debug, PartialEq, Eq, Structural)]
pub enum ScanError {
    /// The scan root itself cannot be resolved or accessed.
    PathUnavailable,
    /// Discovery found no repository at all.
    NoRepositoriesFound,
    /// Discovery found repositories, but the active filters excluded all.
    NoMatchingRepositories,
}

/// A record passes the filter set when it is dirty if only dirty
/// repositories were asked for, local-only if only those were asked for,
/// and ahead of its upstream if only unpushed ones were asked for — an
/// absent ahead count conservatively counting as not ahead.
pub open spec fn spec_passes(
    info: RepoInfo,
    dirty_only: bool,
    local_only: bool,
    unpushed_only: bool,
) -> bool {
    &&& dirty_only ==> info.dirty
    &&& local_only ==> info.local_only
    &&& unpushed_only ==> (info.ahead matches Option::Some(n) && n > 0)
}

/// The subsequence of records that pass the filter set, in order.
pub open spec fn spec_kept(
    s: Seq<RepoInfo>,
    dirty_only: bool,
    local_only: bool,
    unpushed_only: bool,
) -> Seq<RepoInfo>
    decreases s.len(),
{
    if s.len() == 0 {
        Seq::empty()
    } else {
        let rest = spec_kept(s.drop_last(), dirty_only, local_only, unpushed_only);
        if spec_passes(s.last(), dirty_only, local_only, unpushed_only) {
            rest.push(s.last())
        } else {
            rest
        }
    }
}

/// Decides the filter predicate on one record.
pub fn passes_filter(
    info: &RepoInfo,
    dirty_only: bool,
    local_only: bool,
    unpushed_only: bool,
) -> (b: bool)
    ensures
        b == spec_passes(*info, dirty_only, local_only, unpushed_only),
{
    let ahead_positive = match info.ahead {
        Option::Some(n) => n > 0,
        Option::None => false,
    };
    (!dirty_only || info.dirty) && (!local_only || info.local_only) && (!unpushed_only
        || ahead_positive)
}

/// Keeps exactly the records that pass the filter set, in order.
pub fn filter_repos(
    v: Vec<RepoInfo>,
    dirty_only: bool,
    local_only: bool,
    unpushed_only: bool,
) -> (r: Vec<RepoInfo>)
    ensures
        r@ == spec_kept(v@, dirty_only, local_only, unpushed_only),
{
    let ghost orig = v@;
    let mut rest = v;
    let mut out: Vec<RepoInfo> = Vec::new();
    proof {
        assert(orig.subrange(0, 0) =~= Seq::<RepoInfo>::empty());
        assert(rest@ =~= orig.subrange(0, orig.len() as int));
    }
    while rest.len() > 0
        invariant
            rest@.len() <= orig.len(),
            rest@ == orig.subrange(orig.len() - rest@.len(), orig.len() as int),
            out@ == spec_kept(
                orig.subrange(0, orig.len() - rest@.len()),
                dirty_only,
                local_only,
                unpushed_only,
            ),
        decreases rest@.len(),
    {
        let ghost rest0 = rest@;
        let ghost k: int = orig.len() - rest0.len();
        let x = rest.remove(0);
        let keep = passes_filter(&x, dirty_only, local_only, unpushed_only);
        proof {
            assert(rest0[0] == orig.subrange(k, orig.len() as int)[0]);
            assert(x == orig[k]);
            assert(rest@ =~= orig.subrange(k + 1, orig.len() as int));
            let pk = orig.subrange(0, k);
            let pk1 = orig.subrange(0, k + 1);
            assert(pk1.drop_last() =~= pk);
            assert(pk1.last() == orig[k]);
        }
        if keep {
            out.push(x);
        }
    }
    proof {
        assert(orig.subrange(0, orig.len() as int) =~= orig);
    }
    out
}

/// Filters the classified records and decides the scan's outcome: the
/// matching records where any remain, otherwise the error that tells an
/// empty directory tree apart from filters that excluded everything.
/// `discovered` is the number of roots discovery reported.
pub fn select_repos(
    infos: Vec<RepoInfo>,
    discovered: usize,
    dirty_only: bool,
    local_only: bool,
    unpushed_only: bool,
) -> (r: Result<Vec<RepoInfo>, ScanError>)
    ensures
        ({
            let kept = spec_kept(infos@, dirty_only, local_only, unpushed_only);
            match r {
                Ok(v) => v@ == kept && kept.len() > 0,
                Err(e) => {
                    &&& kept.len() == 0
                    &&& e is NoRepositoriesFound <==> discovered == 0
                    &&& e is NoMatchingRepositories <==> discovered > 0
                },
            }
        }),
{
    let kept = filter_repos(infos, dirty_only, local_only, unpushed_only);
    if kept.len() == 0 {
        if discovered == 0 {
            Err(ScanError::NoRepositoriesFound)
        } else {
            Err(ScanError::NoMatchingRepositories)
        }
    } else {
        Ok(kept)
    }
}

/// The number of records marked dirty.
pub open spec fn dirty_count(s: Seq<RepoInfo>) -> nat
    decreases s.len(),
{
    if s.len() == 0 {
        0
    } else {
        dirty_count(s.drop_last()) + if s.last().dirty {
            1nat
        } else {
            0nat
        }
    }
}

/// The number of records marked local-only.
pub open spec fn local_only_count(s: Seq<RepoInfo>) -> nat
    decreases s.len(),
{
    if s.len() == 0 {
        0
    } else {
        local_only_count(s.drop_last()) + if s.last().local_only {
            1nat
        } else {
            0nat
        }
    }
}

/// Counts the records marked dirty, for the summary line.
pub fn count_dirty(v: &Vec<RepoInfo>) -> (n: usize)
    ensures
        n == dirty_count(v@),
{
    let mut n: usize = 0;
    let mut i: usize = 0;
    proof {
        assert(v@.subrange(0, 0) =~= Seq::<RepoInfo>::empty());
    }
    while i < v.len()
        invariant
            i <= v@.len(),
            n <= i,
            n == dirty_count(v@.subrange(0, i as int)),
        decreases v@.len() - i,
    {
        proof {
            let pk = v@.subrange(0, i as int);
            let pk1 = v@.subrange(0, i + 1);
            assert(pk1.drop_last() =~= pk);
            assert(pk1.last() == v@[i as int]);
        }
        if v[i].dirty {
            n += 1;
        }
        i += 1;
    }
    proof {
        assert(v@.subrange(0, v@.len() as int) =~= v@);
    }
    n
}

/// Counts the records marked local-only, for the summary line.
pub fn count_local_only(v: &Vec<RepoInfo>) -> (n: usize)
    ensures
        n == local_only_count(v@),
{
    let mut n: usize = 0;
    let mut i: usize = 0;
    proof {
        assert(v@.subrange(0, 0) =~= Seq::<RepoInfo>::empty());
    }
    while i < v.len()
        invariant
            i <= v@.len(),
            n <= i,
            n == local_only_count(v@.subrange(0, i as int)),
        decreases v@.len() - i,
    {
        proof {
            let pk = v@.subrange(0, i as int);
            let pk1 = v@.subrange(0, i + 1);
            assert(pk1.drop_last() =~= pk);
            assert(pk1.last() == v@[i as int]);
        }
        if v[i].local_only {
            n += 1;
        }
        i += 1;
    }
    proof {
        assert(v@.subrange(0, v@.len() as int) =~= v@);
    }
    n
}

/// The path shown for one repository: its path relative to the scan root
/// where it lies at or under the root, its full path otherwise.
pub fn relative_to(path: &String, base: &String) -> (r: String)
    ensures
        path@ == base@ ==> r@ == Seq::<char>::empty(),
        strict_desc(path@, base@) ==> r@ == path@.skip(base@.len() + 1int),
        path@ != base@ && !strict_desc(path@, base@) ==> r@ == path@,
{
    if *path == *base {
        return String::new();
    }
    let n = base.as_str().unicode_len();
    let m = path.as_str().unicode_len();
    if m > n && m - n >= 2 && path.as_str().get_char(n) == '/' {
        let mut i: usize = 0;
        while i < n
            invariant
                i <= n,
                n < m,
                n == base@.len(),
                m == path@.len(),
                forall|j: int| 0 <= j < i ==> path@[j] == base@[j],
            decreases n - i,
        {
            if path.as_str().get_char(i) != base.as_str().get_char(i) {
                proof {
                    assert(path@.subrange(0, n as int)[i as int] != base@[i as int]);
                }
                return path.clone();
            }
            i += 1;
        }
        proof {
            assert(path@.subrange(0, n as int) =~= base@);
            assert(strict_desc(path@, base@));
        }
        let rel = path.as_str().substring_char(n + 1, m).to_owned();
        proof {
            assert(rel@ =~= path@.skip(n + 1));
        }
        rel
    } else {
        proof {
            assert(!strict_desc(path@, base@));
        }
        path.clone()
    }
}

} // verus!
