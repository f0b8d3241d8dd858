//! The commit classifier: for one branch of one stack it walks the local
//! pseudo-branch and its remote counterpart, partitions commits into local
//! and upstream-only, and assigns every local commit a state relative to
//! the remote and to the workspace's integration boundary.
use vstd::prelude::*;

use crate::repo::CommitId;
use crate::repo::Repo;
use crate::CommitState;
use crate::StackBranchCommit;
use crate::StackBranchCommitView;
use crate::UpstreamCommit;
use crate::UpstreamCommitView;

verus! {

/// Whether some commit reachable from the commit at index `b` carries the
/// content fingerprint `f`.
pub open spec fn content_reachable(repo: Repo, b: int, f: u64) -> bool {
    exists|j: int|
        0 <= j < repo.commits@.len() && #[trigger] repo.reach(b, j)
            && repo.commits@[j].fingerprint == f
}

/// Whether the local commit at index `c` counts as integrated: itself
/// reachable from the integration boundary at index `b`, or equivalent in
/// content to a commit that is.
pub open spec fn integrated(repo: Repo, b: int, c: int) -> bool {
    repo.reach(b, c) || content_reachable(repo, b, repo.commits@[c].fingerprint)
}

/// The first entry of the upstream chain whose commit carries the content
/// fingerprint `f`: closest by ancestry order, first match wins.
pub open spec fn first_fp_match(repo: Repo, u_chain: Seq<int>, f: u64) -> Option<int>
    decreases u_chain.len(),
{
    if u_chain.len() == 0 {
        None
    } else if 0 <= u_chain[0] < repo.commits@.len()
        && repo.commits@[u_chain[0]].fingerprint == f {
        Some(u_chain[0])
    } else {
        first_fp_match(repo, u_chain.drop_first(), f)
    }
}

/// The remote commit matched to the local commit at index `c`: its own
/// identifier when it is reachable from the upstream tip at index `u`, else
/// the first upstream-chain commit with the same content, else nothing.
pub open spec fn spec_remote_match(repo: Repo, u: int, u_chain: Seq<int>, c: int) -> Option<
    CommitId,
> {
    if repo.reach(u, c) {
        Some(repo.commits@[c].id)
    } else {
        match first_fp_match(repo, u_chain, repo.commits@[c].fingerprint) {
            Some(j) => Some(repo.commits@[j].id),
            None => None,
        }
    }
}

/// The state of the local commit at index `c` when an upstream is
/// configured: integration takes precedence over remote matching.
pub open spec fn spec_commit_state(repo: Repo, b: int, u: int, u_chain: Seq<int>, c: int) -> CommitState {
    if integrated(repo, b, c) {
        CommitState::Integrated
    } else {
        match spec_remote_match(repo, u, u_chain, c) {
            Some(id) => CommitState::LocalAndRemote(id),
            None => CommitState::LocalOnly,
        }
    }
}

/// The view of the local commit at index `c` with state `state`.
pub open spec fn spec_local_commit(repo: Repo, c: int, state: CommitState) -> StackBranchCommitView {
    StackBranchCommitView {
        id: repo.commits@[c].id,
        message: repo.commits@[c].message@,
        has_conflicts: repo.commits@[c].has_conflicts,
        state: state,
    }
}

/// The classified local commit list for the chain `locals`, upstream
/// configured at index `u` with chain `u_chain`.
pub open spec fn spec_local_commits(repo: Repo, b: int, u: int, u_chain: Seq<int>, locals: Seq<int>) -> Seq<StackBranchCommitView> {
    locals.map_values(|c: int| spec_local_commit(repo, c, spec_commit_state(repo, b, u, u_chain, c)))
}

/// The local commit list when no upstream reference is configured: no
/// remote comparison is possible, every commit is local-only.
pub open spec fn spec_local_commits_no_upstream(repo: Repo, locals: Seq<int>) -> Seq<StackBranchCommitView> {
    locals.map_values(|c: int| spec_local_commit(repo, c, CommitState::LocalOnly))
}

/// Whether some local commit was matched to the remote commit identifier
/// `rid`.
pub open spec fn spec_matched_remote(repo: Repo, u: int, u_chain: Seq<int>, locals: Seq<int>, rid: CommitId) -> bool {
    exists|m: int|
        0 <= m < locals.len() && #[trigger] spec_remote_match(repo, u, u_chain, locals[m])
            == Some(rid)
}

/// Whether the upstream-chain commit at index `j` is surfaced as new
/// upstream work: not already an ancestor of the integration boundary, and
/// not matched to any local commit.
pub open spec fn spec_upstream_kept(repo: Repo, b: int, u: int, u_chain: Seq<int>, locals: Seq<int>, j: int) -> bool {
    &&& !repo.reach(b, j)
    &&& !spec_matched_remote(repo, u, u_chain, locals, repo.commits@[j].id)
}

/// The view of the upstream-only commit at index `j`.
pub open spec fn spec_upstream_commit(repo: Repo, j: int) -> UpstreamCommitView {
    UpstreamCommitView { id: repo.commits@[j].id, message: repo.commits@[j].message@ }
}

/// The upstream-only commit list: the upstream chain, ancestry order kept,
/// restricted to the commits surfaced as new upstream work.
pub open spec fn spec_upstream_commits(repo: Repo, b: int, u: int, u_chain: Seq<int>, locals: Seq<int>) -> Seq<UpstreamCommitView> {
    u_chain.filter(|j: int| spec_upstream_kept(repo, b, u, u_chain, locals, j))
        .map_values(|j: int| spec_upstream_commit(repo, j))
}

/// Decides whether the local commit at index `c` is integrated, using the
/// boundary reachability marks.
fn is_integrated(repo: &Repo, bmark: &Vec<bool>, b: usize, c: usize) -> (r: bool)
    requires
        repo.wf(),
        b < repo.commits@.len(),
        c < repo.commits@.len(),
        bmark@.len() == repo.commits@.len(),
        forall|t: int| 0 <= t < bmark@.len() ==> #[trigger] bmark@[t] == repo.reach(b as int, t),
    ensures
        r == integrated(*repo, b as int, c as int),
{
    if bmark[c] {
        return true;
    }
    let n = repo.commits.len();
    let f = repo.commits[c].fingerprint;
    let mut j: usize = 0;
    while j < n
        invariant
            repo.wf(),
            b < n,
            c < n,
            n == repo.commits@.len(),
            bmark@.len() == n,
            forall|t: int| 0 <= t < n ==> #[trigger] bmark@[t] == repo.reach(b as int, t),
            f == repo.commits@[c as int].fingerprint,
            j <= n,
            forall|t: int|
                0 <= t < j ==> !(#[trigger] repo.reach(b as int, t)
                    && repo.commits@[t].fingerprint == f),
        decreases n - j,
    {
        if bmark[j] && repo.commits[j].fingerprint == f {
            return true;
        }
        j += 1;
    }
    false
}

/// Finds the remote commit matched to the local commit at index `c`, using
/// the upstream reachability marks and the upstream chain.
fn remote_match(repo: &Repo, umark: &Vec<bool>, u_chain: &Vec<usize>, u: usize, c: usize) -> (r: Option<CommitId>)
    requires
        repo.wf(),
        u < repo.commits@.len(),
        c < repo.commits@.len(),
        umark@.len() == repo.commits@.len(),
        forall|t: int| 0 <= t < umark@.len() ==> #[trigger] umark@[t] == repo.reach(u as int, t),
        forall|m: int| 0 <= m < u_chain@.len() ==> #[trigger] u_chain@[m] < repo.commits@.len(),
    ensures
        r == spec_remote_match(*repo, u as int, u_chain@.map_values(|x: usize| x as int), c as int),
{
    let ghost uc = u_chain@.map_values(|x: usize| x as int);
    if umark[c] {
        return Some(repo.commits[c].id);
    }
    let f = repo.commits[c].fingerprint;
    let nm = u_chain.len();
    let mut m: usize = 0;
    proof {
        assert(uc.subrange(0, nm as int) =~= uc);
    }
    while m < nm
        invariant
            repo.wf(),
            u < repo.commits@.len(),
            c < repo.commits@.len(),
            !repo.reach(u as int, c as int),
            nm == u_chain@.len(),
            m <= nm,
            uc == u_chain@.map_values(|x: usize| x as int),
            forall|t: int| 0 <= t < u_chain@.len() ==> #[trigger] u_chain@[t] < repo.commits@.len(),
            f == repo.commits@[c as int].fingerprint,
            first_fp_match(*repo, uc, f) == first_fp_match(*repo, uc.subrange(m as int, nm as int), f),
        decreases nm - m,
    {
        proof {
            let tail = uc.subrange(m as int, nm as int);
            assert(tail[0] == uc[m as int]);
            assert(tail.drop_first() =~= uc.subrange(m as int + 1, nm as int));
        }
        if repo.commits[u_chain[m]].fingerprint == f {
            proof {
                assert(first_fp_match(*repo, uc, f) == Some(uc[m as int]));
            }
            return Some(repo.commits[u_chain[m]].id);
        }
        m += 1;
    }
    proof {
        assert(uc.subrange(nm as int, nm as int) =~= Seq::<int>::empty());
    }
    None
}

/// Classifies the local chain of one branch against its upstream chain and
/// the integration boundary: the state of every local commit, and the
/// matched remote identifiers in chain order.
fn classify_locals(repo: &Repo, locals: &Vec<usize>, u_chain: &Vec<usize>, bmark: &Vec<bool>, umark: &Vec<bool>, b: usize, u: usize) -> (r: (Vec<StackBranchCommit>, Vec<Option<CommitId>>))
    requires
        repo.wf(),
        b < repo.commits@.len(),
        u < repo.commits@.len(),
        bmark@.len() == repo.commits@.len(),
        umark@.len() == repo.commits@.len(),
        forall|t: int| 0 <= t < bmark@.len() ==> #[trigger] bmark@[t] == repo.reach(b as int, t),
        forall|t: int| 0 <= t < umark@.len() ==> #[trigger] umark@[t] == repo.reach(u as int, t),
        forall|m: int| 0 <= m < locals@.len() ==> #[trigger] locals@[m] < repo.commits@.len(),
        forall|m: int| 0 <= m < u_chain@.len() ==> #[trigger] u_chain@[m] < repo.commits@.len(),
    ensures
        r.0.deep_view() == spec_local_commits(
            *repo,
            b as int,
            u as int,
            u_chain@.map_values(|x: usize| x as int),
            locals@.map_values(|x: usize| x as int),
        ),
        r.1@.len() == locals@.len(),
        forall|m: int| 0 <= m < locals@.len() ==> #[trigger] r.1@[m] == spec_remote_match(
            *repo,
            u as int,
            u_chain@.map_values(|x: usize| x as int),
            locals@[m] as int,
        ),
{
    let ghost uc = u_chain@.map_values(|x: usize| x as int);
    let ghost lc = locals@.map_values(|x: usize| x as int);
    let mut commits: Vec<StackBranchCommit> = Vec::new();
    let mut matches: Vec<Option<CommitId>> = Vec::new();
    let n = locals.len();
    let mut m: usize = 0;
    while m < n
        invariant
            repo.wf(),
            b < repo.commits@.len(),
            u < repo.commits@.len(),
            bmark@.len() == repo.commits@.len(),
            umark@.len() == repo.commits@.len(),
            forall|t: int| 0 <= t < bmark@.len() ==> #[trigger] bmark@[t] == repo.reach(b as int, t),
            forall|t: int| 0 <= t < umark@.len() ==> #[trigger] umark@[t] == repo.reach(u as int, t),
            forall|t: int| 0 <= t < locals@.len() ==> #[trigger] locals@[t] < repo.commits@.len(),
            forall|t: int| 0 <= t < u_chain@.len() ==> #[trigger] u_chain@[t] < repo.commits@.len(),
            n == locals@.len(),
            m <= n,
            uc == u_chain@.map_values(|x: usize| x as int),
            lc == locals@.map_values(|x: usize| x as int),
            commits.deep_view() == spec_local_commits(*repo, b as int, u as int, uc, lc.subrange(0, m as int)),
            matches@.len() == m,
            forall|t: int| 0 <= t < m ==> #[trigger] matches@[t]
                == spec_remote_match(*repo, u as int, uc, locals@[t] as int),
        decreases n - m,
    {
        let c = locals[m];
        let rm = remote_match(repo, umark, u_chain, u, c);
        let state: CommitState = if is_integrated(repo, bmark, b, c) {
            CommitState::Integrated
        } else {
            match rm {
                Some(id) => CommitState::LocalAndRemote(id),
                None => CommitState::LocalOnly,
            }
        };
        assert(state == spec_commit_state(*repo, b as int, u as int, uc, c as int));
        let entry = StackBranchCommit {
            id: repo.commits[c].id,
            message: crate::clone_bytes(&repo.commits[c].message),
            has_conflicts: repo.commits[c].has_conflicts,
            state: state,
        };
        assert(entry@ == spec_local_commit(*repo, c as int, state));
        let ghost pre = commits.deep_view();
        commits.push(entry);
        matches.push(rm);
        proof {
            assert(commits.deep_view() =~= pre.push(entry@));
            assert(lc.subrange(0, m as int + 1) =~= lc.subrange(0, m as int).push(c as int));
            assert(spec_local_commits(*repo, b as int, u as int, uc, lc.subrange(0, m as int + 1))
                =~= spec_local_commits(*repo, b as int, u as int, uc, lc.subrange(0, m as int)).push(
                spec_local_commit(*repo, c as int, spec_commit_state(*repo, b as int, u as int, uc, c as int)),
            ));
        }
        m += 1;
    }
    proof {
        assert(lc.subrange(0, n as int) =~= lc);
    }
    (commits, matches)
}

/// Builds the local commit list when no upstream reference is configured.
fn classify_locals_no_upstream(repo: &Repo, locals: &Vec<usize>) -> (r: Vec<StackBranchCommit>)
    requires
        repo.wf(),
        forall|m: int| 0 <= m < locals@.len() ==> #[trigger] locals@[m] < repo.commits@.len(),
    ensures
        r.deep_view() == spec_local_commits_no_upstream(*repo, locals@.map_values(|x: usize| x as int)),
{
    let ghost lc = locals@.map_values(|x: usize| x as int);
    let mut commits: Vec<StackBranchCommit> = Vec::new();
    let n = locals.len();
    let mut m: usize = 0;
    while m < n
        invariant
            repo.wf(),
            forall|t: int| 0 <= t < locals@.len() ==> #[trigger] locals@[t] < repo.commits@.len(),
            n == locals@.len(),
            m <= n,
            lc == locals@.map_values(|x: usize| x as int),
            commits.deep_view() == spec_local_commits_no_upstream(*repo, lc.subrange(0, m as int)),
        decreases n - m,
    {
        let c = locals[m];
        let entry = StackBranchCommit {
            id: repo.commits[c].id,
            message: crate::clone_bytes(&repo.commits[c].message),
            has_conflicts: repo.commits[c].has_conflicts,
            state: CommitState::LocalOnly,
        };
        assert(entry@ == spec_local_commit(*repo, c as int, CommitState::LocalOnly));
        let ghost pre = commits.deep_view();
        commits.push(entry);
        proof {
            assert(commits.deep_view() =~= pre.push(entry@));
            assert(lc.subrange(0, m as int + 1) =~= lc.subrange(0, m as int).push(c as int));
            assert(spec_local_commits_no_upstream(*repo, lc.subrange(0, m as int + 1))
                =~= spec_local_commits_no_upstream(*repo, lc.subrange(0, m as int)).push(
                spec_local_commit(*repo, c as int, CommitState::LocalOnly),
            ));
        }
        m += 1;
    }
    proof {
        assert(lc.subrange(0, n as int) =~= lc);
    }
    commits
}

/// Whether the matched remote identifiers in `matches` include `rid`.
fn matches_contain(matches: &Vec<Option<CommitId>>, rid: CommitId) -> (r: bool)
    ensures
        r == exists|m: int| 0 <= m < matches@.len() && #[trigger] matches@[m] == Some(rid),
{
    let n = matches.len();
    let mut m: usize = 0;
    while m < n
        invariant
            n == matches@.len(),
            m <= n,
            forall|t: int| 0 <= t < m ==> #[trigger] matches@[t] != Some(rid),
        decreases n - m,
    {
        match matches[m] {
            Some(id) => {
                if id == rid {
                    assert(matches@[m as int] == Some(rid));
                    return true;
                }
            },
            None => {},
        }
        m += 1;
    }
    false
}

/// Builds the upstream-only commit list: the upstream chain restricted to
/// commits neither reachable from the boundary nor matched to a local
/// commit, ancestry order kept.
fn collect_upstream(repo: &Repo, u_chain: &Vec<usize>, matches: &Vec<Option<CommitId>>, bmark: &Vec<bool>, b: usize, u: usize, locals: &Vec<usize>) -> (r: Vec<UpstreamCommit>)
    requires
        repo.wf(),
        b < repo.commits@.len(),
        u < repo.commits@.len(),
        bmark@.len() == repo.commits@.len(),
        forall|t: int| 0 <= t < bmark@.len() ==> #[trigger] bmark@[t] == repo.reach(b as int, t),
        forall|m: int| 0 <= m < locals@.len() ==> #[trigger] locals@[m] < repo.commits@.len(),
        forall|m: int| 0 <= m < u_chain@.len() ==> #[trigger] u_chain@[m] < repo.commits@.len(),
        matches@.len() == locals@.len(),
        forall|m: int| 0 <= m < locals@.len() ==> #[trigger] matches@[m] == spec_remote_match(
            *repo,
            u as int,
            u_chain@.map_values(|x: usize| x as int),
            locals@[m] as int,
        ),
    ensures
        r.deep_view() == spec_upstream_commits(
            *repo,
            b as int,
            u as int,
            u_chain@.map_values(|x: usize| x as int),
            locals@.map_values(|x: usize| x as int),
        ),
{
    let ghost uc = u_chain@.map_values(|x: usize| x as int);
    let ghost lc = locals@.map_values(|x: usize| x as int);
    let ghost kept = |j: int| spec_upstream_kept(*repo, b as int, u as int, uc, lc, j);
    let ghost f = |j: int| spec_upstream_commit(*repo, j);
    let mut out: Vec<UpstreamCommit> = Vec::new();
    let n = u_chain.len();
    let mut m: usize = 0;
    while m < n
        invariant
            repo.wf(),
            b < repo.commits@.len(),
            u < repo.commits@.len(),
            bmark@.len() == repo.commits@.len(),
            forall|t: int| 0 <= t < bmark@.len() ==> #[trigger] bmark@[t] == repo.reach(b as int, t),
            forall|t: int| 0 <= t < locals@.len() ==> #[trigger] locals@[t] < repo.commits@.len(),
            forall|t: int| 0 <= t < u_chain@.len() ==> #[trigger] u_chain@[t] < repo.commits@.len(),
            matches@.len() == locals@.len(),
            forall|t: int| 0 <= t < locals@.len() ==> #[trigger] matches@[t] == spec_remote_match(
                *repo,
                u as int,
                uc,
                locals@[t] as int,
            ),
            n == u_chain@.len(),
            m <= n,
            uc == u_chain@.map_values(|x: usize| x as int),
            lc == locals@.map_values(|x: usize| x as int),
            kept == (|j: int| spec_upstream_kept(*repo, b as int, u as int, uc, lc, j)),
            f == (|j: int| spec_upstream_commit(*repo, j)),
            out.deep_view() == uc.subrange(0, m as int).filter(kept).map_values(f),
        decreases n - m,
    {
        let j = u_chain[m];
        proof {
            let pre = uc.subrange(0, m as int);
            assert(uc.subrange(0, m as int + 1) =~= pre.push(j as int));
            pre.lemma_filter_push(j as int, kept);
        }
        let keep = if bmark[j] {
            false
        } else {
            !matches_contain(matches, repo.commits[j].id)
        };
        proof {
            assert(keep == kept(j as int)) by {
                assert((exists|t: int| 0 <= t < matches@.len() && #[trigger] matches@[t]
                    == Some(repo.commits@[j as int].id))
                    == spec_matched_remote(*repo, u as int, uc, lc, repo.commits@[j as int].id)) by {
                    if exists|t: int| 0 <= t < matches@.len() && #[trigger] matches@[t]
                        == Some(repo.commits@[j as int].id) {
                        let t = choose|t: int| 0 <= t < matches@.len() && #[trigger] matches@[t]
                            == Some(repo.commits@[j as int].id);
                        assert(spec_remote_match(*repo, u as int, uc, lc[t])
                            == Some(repo.commits@[j as int].id));
                    }
                    if spec_matched_remote(*repo, u as int, uc, lc, repo.commits@[j as int].id) {
                        let t = choose|t: int| 0 <= t < lc.len()
                            && #[trigger] spec_remote_match(*repo, u as int, uc, lc[t])
                                == Some(repo.commits@[j as int].id);
                        assert(matches@[t] == Some(repo.commits@[j as int].id));
                    }
                }
            }
        }
        if keep {
            let entry = UpstreamCommit {
                id: repo.commits[j].id,
                message: crate::clone_bytes(&repo.commits[j].message),
            };
            assert(entry@ == f(j as int));
            let ghost pre = out.deep_view();
            out.push(entry);
            proof {
                assert(out.deep_view() =~= pre.push(entry@));
                assert(uc.subrange(0, m as int).filter(kept).push(j as int).map_values(f)
                    =~= uc.subrange(0, m as int).filter(kept).map_values(f).push(f(j as int)));
            }
        }
        m += 1;
    }
    proof {
        assert(uc.subrange(0, n as int) =~= uc);
    }
    out
}

/// Classifies one branch: the ordered, classified local commit list and
/// the ordered upstream-only commit list, for the branch whose local head
/// sits at index `local`, whose upstream tip (if configured) sits at index
/// `upstream`, against the integration boundary at index `boundary`.
pub fn classify_branch(repo: &Repo, local: usize, upstream: Option<usize>, boundary: usize) -> (r: (Vec<StackBranchCommit>, Vec<UpstreamCommit>))
    requires
        repo.wf(),
        local < repo.commits@.len(),
        boundary < repo.commits@.len(),
        upstream is Some ==> upstream->0 < repo.commits@.len(),
    ensures
        r.0.deep_view() == spec_branch_commits(*repo, local as int, spec_upstream_of(upstream), boundary as int),
        r.1.deep_view() == spec_branch_upstream_commits(*repo, local as int, spec_upstream_of(upstream), boundary as int),
{
    let stop = repo.commits[boundary].id;
    let locals = repo.collect_chain(local, stop);
    proof {
        lemma_chain_in_range(*repo, local as int, stop);
        assert forall|m: int| 0 <= m < locals@.len()
            implies #[trigger] locals@[m] < repo.commits@.len() by {
            assert(locals@.map_values(|x: usize| x as int)[m] == locals@[m] as int);
            assert(repo.chain(local as int, stop)[m] == locals@[m] as int);
        }
    }
    match upstream {
        None => {
            let commits = classify_locals_no_upstream(repo, &locals);
            let ups: Vec<UpstreamCommit> = Vec::new();
            assert(ups.deep_view() =~= Seq::<UpstreamCommitView>::empty());
            (commits, ups)
        },
        Some(u) => {
            let u_chain = repo.collect_chain(u, stop);
            proof {
                lemma_chain_in_range(*repo, u as int, stop);
                assert forall|m: int| 0 <= m < u_chain@.len()
                    implies #[trigger] u_chain@[m] < repo.commits@.len() by {
                    assert(u_chain@.map_values(|x: usize| x as int)[m] == u_chain@[m] as int);
                    assert(repo.chain(u as int, stop)[m] == u_chain@[m] as int);
                }
            }
            let bmark = repo.mark_reachable(boundary);
            let umark = repo.mark_reachable(u);
            let (commits, matches) = classify_locals(repo, &locals, &u_chain, &bmark, &umark, boundary, u);
            let ups = collect_upstream(repo, &u_chain, &matches, &bmark, boundary, u, &locals);
            (commits, ups)
        },
    }
}

/// The upstream index as a mathematical option.
pub open spec fn spec_upstream_of(upstream: Option<usize>) -> Option<int> {
    match upstream {
        Some(u) => Some(u as int),
        None => None,
    }
}

/// The classified local commit list of one branch, as `classify_branch`
/// returns it.
pub open spec fn spec_branch_commits(repo: Repo, local: int, upstream: Option<int>, boundary: int) -> Seq<StackBranchCommitView> {
    let stop = repo.commits@[boundary].id;
    let locals = repo.chain(local, stop);
    match upstream {
        None => spec_local_commits_no_upstream(repo, locals),
        Some(u) => spec_local_commits(repo, boundary, u, repo.chain(u, stop), locals),
    }
}

/// The upstream-only commit list of one branch, as `classify_branch`
/// returns it: empty when no upstream reference is configured.
pub open spec fn spec_branch_upstream_commits(repo: Repo, local: int, upstream: Option<int>, boundary: int) -> Seq<UpstreamCommitView> {
    let stop = repo.commits@[boundary].id;
    let locals = repo.chain(local, stop);
    match upstream {
        None => Seq::empty(),
        Some(u) => spec_upstream_commits(repo, boundary, u, repo.chain(u, stop), locals),
    }
}

/// Every index of a first-parent chain is a valid storage index.
pub proof fn lemma_chain_in_range(repo: Repo, i: int, stop: CommitId)
    ensures
        forall|m: int| 0 <= m < repo.chain(i, stop).len()
            ==> 0 <= #[trigger] repo.chain(i, stop)[m] < repo.commits@.len(),
    decreases i,
{
    if 0 <= i < repo.commits@.len() && repo.commits@[i].id != stop
        && repo.commits@[i].parents@.len() > 0 {
        let p = repo.idx_of(repo.commits@[i].parents@[0]);
        if 0 <= p < i {
            lemma_chain_in_range(repo, p, stop);
            assert forall|m: int| 0 <= m < repo.chain(i, stop).len()
                implies 0 <= #[trigger] repo.chain(i, stop)[m] < repo.commits@.len() by {
                if m > 0 {
                    assert(repo.chain(i, stop)[m] == repo.chain(p, stop)[m - 1]);
                }
            }
        }
    }
}

} // verus!
