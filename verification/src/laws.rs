//! The library's laws: properties that hold of listing and classification
//! for every input, stated over the same spec functions that the executable
//! functions' contracts use, and proved here once and for all.
use vstd::prelude::*;

use crate::classify::spec_commit_state;
use crate::repo::CommitId;
use crate::repo::Repo;
use crate::spec_entry_of;
use crate::spec_stack_branch;
use crate::spec_stacks;
use crate::state_wf;
use crate::BranchMetaView;
use crate::CommitState;
use crate::StoredStackView;

verus! {

/// Every element of a filtered sequence satisfies the predicate and stems
/// from the original sequence.
proof fn lemma_filter_elements<A>(s: Seq<A>, pred: spec_fn(A) -> bool, k: int)
    requires
        0 <= k < s.filter(pred).len(),
    ensures
        s.contains(s.filter(pred)[k]),
        pred(s.filter(pred)[k]),
    decreases s.len(),
{
    reveal(Seq::filter);
    if s.len() > 0 {
        if pred(s.last()) && k == s.filter(pred).len() - 1 {
            assert(s.filter(pred)[k] == s.last());
            assert(s[s.len() - 1] == s.last());
        } else {
            lemma_filter_elements(s.drop_last(), pred, k);
            let e = s.drop_last().filter(pred)[k];
            let j = choose|j: int| 0 <= j < s.drop_last().len() && s.drop_last()[j] == e;
            assert(s[j] == e);
        }
    }
}

/// A workspace with zero applied stacks lists as the empty sequence; that
/// the listing succeeds on any well-formed snapshot — empty or not — is
/// part of the contract of `stacks` itself.
pub proof fn lemma_stacks_empty_when_none_applied(state: Seq<StoredStackView>)
    requires
        forall|i: int| 0 <= i < state.len() ==> !(#[trigger] state[i].in_workspace),
    ensures
        spec_stacks(state).len() == 0,
{
    let pred = |s: StoredStackView| s.in_workspace;
    if spec_stacks(state).len() > 0 {
        lemma_filter_elements(state, pred, 0);
        let e = state.filter(pred)[0];
        let j = choose|j: int| 0 <= j < state.len() && state[j] == e;
        assert(!pred(e));
        assert(false);
    }
}

/// Every listed entry copies one applied stored stack verbatim: same
/// identifier, the head names in their stored order, and — on a
/// well-formed snapshot — a non-empty name list.
pub proof fn lemma_stacks_entries_faithful(state: Seq<StoredStackView>, k: int)
    requires
        state_wf(state),
        0 <= k < spec_stacks(state).len(),
    ensures
        spec_stacks(state)[k].branch_names.len() > 0,
        exists|i: int|
            0 <= i < state.len() && (#[trigger] state[i]).in_workspace
                && spec_stacks(state)[k] == spec_entry_of(state[i]),
{
    let pred = |s: StoredStackView| s.in_workspace;
    lemma_filter_elements(state, pred, k);
    let e = state.filter(pred)[k];
    let i = choose|i: int| 0 <= i < state.len() && state[i] == e;
    assert(spec_stacks(state)[k] == spec_entry_of(e));
    assert(state[i].in_workspace);
    assert(state[i].heads.len() > 0);
}

/// The listing is a pure function of the state snapshot: with no
/// intervening mutation — equal snapshots — two listings are identical.
pub proof fn lemma_stacks_idempotent(s1: Seq<StoredStackView>, s2: Seq<StoredStackView>)
    requires
        s1 == s2,
    ensures
        spec_stacks(s1) == spec_stacks(s2),
{
}

/// With no upstream reference configured there is no remote to compare
/// against: every commit of the assembled branch is local-only and the
/// upstream-only list is empty.
pub proof fn lemma_no_upstream_all_local(repo: Repo, b: int, m: BranchMetaView, k: int)
    requires
        m.upstream_reference is None,
        0 <= k < spec_stack_branch(repo, b, m).commits.len(),
    ensures
        spec_stack_branch(repo, b, m).commits[k].state == CommitState::LocalOnly,
        spec_stack_branch(repo, b, m).upstream_commits.len() == 0,
{
}

/// Integration takes precedence over remote matching: a local commit
/// reachable from the integration boundary classifies as `Integrated`,
/// whatever its presence at the remote.
pub proof fn lemma_integration_takes_precedence(repo: Repo, b: int, u: int, u_chain: Seq<int>, c: int)
    requires
        0 <= b < repo.commits@.len(),
        0 <= c < repo.commits@.len(),
        repo.reach(b, c),
    ensures
        spec_commit_state(repo, b, u, u_chain, c) == CommitState::Integrated,
{
}

/// A first-parent chain starts at its head.
proof fn lemma_chain_head(repo: Repo, i: int, stop: CommitId)
    requires
        repo.chain(i, stop).len() > 0,
    ensures
        repo.chain(i, stop)[0] == i,
{
}

/// The commit lists are newest first: every entry of a chain after the
/// first is the first parent of the entry before it, so the walk descends
/// from descendant to ancestor.
pub proof fn lemma_chain_newest_first(repo: Repo, i: int, stop: CommitId, k: int)
    requires
        repo.wf(),
        0 <= k,
        k + 1 < repo.chain(i, stop).len(),
    ensures
        repo.commits@[repo.chain(i, stop)[k + 1]].id
            == repo.commits@[repo.chain(i, stop)[k]].parents@[0],
    decreases i,
{
    let ch = repo.chain(i, stop);
    assert(0 <= i < repo.commits@.len());
    assert(repo.commits@[i].id != stop);
    assert(repo.commits@[i].parents@.len() > 0);
    let p = repo.idx_of(repo.commits@[i].parents@[0]);
    assert(0 <= p < i) by {
        assert(repo.parent_stored_below(i, 0));
        let j = choose|j: int| 0 <= j < i && #[trigger] repo.commits@[j].id
            == repo.commits@[i].parents@[0];
        assert(repo.spec_has_id(repo.commits@[i].parents@[0]));
        assert(repo.commits@[p].id == repo.commits@[i].parents@[0]);
        if p != j {
            assert(repo.commits@[p].id != repo.commits@[j].id);
        }
    }
    assert(ch == seq![i] + repo.chain(p, stop));
    if k == 0 {
        lemma_chain_head(repo, p, stop);
        assert(ch[1] == repo.chain(p, stop)[0]);
        assert(repo.commits@[p].id == repo.commits@[i].parents@[0]);
    } else {
        lemma_chain_newest_first(repo, p, stop, k - 1);
        assert(ch[k] == repo.chain(p, stop)[k - 1]);
        assert(ch[k + 1] == repo.chain(p, stop)[k]);
    }
}

/// Commits are stored parents before children, so a chain — and with it
/// every list derived from one, the upstream-only list included — descends
/// strictly in storage order: reverse topological, newest first.
pub proof fn lemma_chain_descends(repo: Repo, i: int, stop: CommitId, k: int)
    requires
        repo.wf(),
        0 <= k,
        k + 1 < repo.chain(i, stop).len(),
    ensures
        repo.chain(i, stop)[k] > repo.chain(i, stop)[k + 1],
    decreases i,
{
    let ch = repo.chain(i, stop);
    let p = repo.idx_of(repo.commits@[i].parents@[0]);
    assert(0 <= p < i) by {
        assert(repo.parent_stored_below(i, 0));
        let j = choose|j: int| 0 <= j < i && #[trigger] repo.commits@[j].id
            == repo.commits@[i].parents@[0];
        assert(repo.spec_has_id(repo.commits@[i].parents@[0]));
        assert(repo.commits@[p].id == repo.commits@[i].parents@[0]);
        if p != j {
            assert(repo.commits@[p].id != repo.commits@[j].id);
        }
    }
    assert(ch == seq![i] + repo.chain(p, stop));
    if k == 0 {
        lemma_chain_head(repo, p, stop);
        assert(ch[1] == repo.chain(p, stop)[0]);
    } else {
        lemma_chain_descends(repo, p, stop, k - 1);
        assert(ch[k] == repo.chain(p, stop)[k - 1]);
        assert(ch[k + 1] == repo.chain(p, stop)[k]);
    }
}

/// Filtering keeps a strictly descending sequence strictly descending.
proof fn lemma_filter_keeps_descent(s: Seq<int>, p: spec_fn(int) -> bool, k: int)
    requires
        forall|a: int, b: int| 0 <= a < b < s.len() ==> s[a] > s[b],
        0 <= k,
        k + 1 < s.filter(p).len(),
    ensures
        s.filter(p)[k] > s.filter(p)[k + 1],
    decreases s.len(),
{
    reveal(Seq::filter);
    let head = s.drop_last();
    let fs = s.filter(p);
    assert(forall|a: int, b: int| 0 <= a < b < head.len() ==> head[a] > head[b]);
    if p(s.last()) && k + 1 == fs.len() - 1 {
        assert(fs[k + 1] == s.last());
        assert(fs[k] == head.filter(p)[k]);
        lemma_filter_elements(head, p, k);
        let e = head.filter(p)[k];
        let a = choose|a: int| 0 <= a < head.len() && head[a] == e;
        assert(s[a] == e);
        assert(s[a] > s[s.len() - 1]);
    } else {
        lemma_filter_keeps_descent(head, p, k);
        assert(fs[k] == head.filter(p)[k]);
        assert(fs[k + 1] == head.filter(p)[k + 1]);
    }
}

/// The upstream-only list keeps the walk's newest-first order: entry `k`
/// is the view of the `k`-th kept chain position, and the kept positions
/// descend strictly in storage order.
pub proof fn lemma_upstream_commits_newest_first(repo: Repo, b: int, u: int, u_chain: Seq<int>, locals: Seq<int>, k: int)
    requires
        forall|a: int, c: int| 0 <= a < c < u_chain.len() ==> u_chain[a] > u_chain[c],
        0 <= k,
        k + 1 < crate::classify::spec_upstream_commits(repo, b, u, u_chain, locals).len(),
    ensures
        ({
            let kept = u_chain.filter(
                |j: int| crate::classify::spec_upstream_kept(repo, b, u, u_chain, locals, j),
            );
            &&& crate::classify::spec_upstream_commits(repo, b, u, u_chain, locals)[k]
                == crate::classify::spec_upstream_commit(repo, kept[k])
            &&& kept[k] > kept[k + 1]
        }),
{
    lemma_filter_keeps_descent(
        u_chain,
        |j: int| crate::classify::spec_upstream_kept(repo, b, u, u_chain, locals, j),
        k,
    );
}

/// The assembled branch lists exactly the chain of its local head: entry
/// `k` carries the identifier of chain position `k`, so the list order is
/// the walk order.
pub proof fn lemma_branch_commits_follow_chain(repo: Repo, b: int, m: BranchMetaView, k: int)
    requires
        0 <= b < repo.commits@.len(),
        0 <= k < spec_stack_branch(repo, b, m).commits.len(),
    ensures
        ({
            let local = crate::spec_resolve_idx(repo, m.name)->0;
            let ch = repo.chain(local, repo.commits@[b].id);
            spec_stack_branch(repo, b, m).commits.len() == ch.len()
                && spec_stack_branch(repo, b, m).commits[k].id == repo.commits@[ch[k]].id
        }),
{
}

/// Every commit on a chain is reachable from the chain's head.
proof fn lemma_chain_reachable(repo: Repo, i: int, stop: CommitId, m: int)
    requires
        repo.wf(),
        0 <= m < repo.chain(i, stop).len(),
    ensures
        repo.reach(i, repo.chain(i, stop)[m]),
    decreases i,
{
    let ch = repo.chain(i, stop);
    assert(0 <= i < repo.commits@.len());
    if m == 0 {
        assert(ch[0] == i);
    } else {
        let p = repo.idx_of(repo.commits@[i].parents@[0]);
        assert(0 <= p < i) by {
            assert(repo.parent_stored_below(i, 0));
            let j = choose|j: int| 0 <= j < i && #[trigger] repo.commits@[j].id
                == repo.commits@[i].parents@[0];
            assert(repo.spec_has_id(repo.commits@[i].parents@[0]));
            assert(repo.commits@[p].id == repo.commits@[i].parents@[0]);
            if p != j {
                assert(repo.commits@[p].id != repo.commits@[j].id);
            }
        }
        assert(ch == seq![i] + repo.chain(p, stop));
        lemma_chain_reachable(repo, p, stop, m - 1);
        assert(ch[m] == repo.chain(p, stop)[m - 1]);
        assert(repo.step(i, p)) by {
            assert(repo.commits@[i].parents@[0] == repo.commits@[p].id);
        }
        assert(repo.reach_above(p, ch[m], 0));
        assert(repo.reach_above(i, ch[m], 0));
    }
}

/// A commit never appears in both lists of one branch view: content that
/// is shared with the remote surfaces as `LocalAndRemote` on the local
/// side, and the upstream-only list holds the remainder.
pub proof fn lemma_lists_disjoint(repo: Repo, b: int, u: int, stop: CommitId, locals: Seq<int>, k1: int, k2: int)
    requires
        repo.wf(),
        0 <= u < repo.commits@.len(),
        forall|m: int| 0 <= m < locals.len() ==> 0 <= #[trigger] locals[m] < repo.commits@.len(),
        0 <= k1 < locals.len(),
        0 <= k2 < crate::classify::spec_upstream_commits(
            repo,
            b,
            u,
            repo.chain(u, stop),
            locals,
        ).len(),
    ensures
        crate::classify::spec_local_commits(repo, b, u, repo.chain(u, stop), locals)[k1].id
            != crate::classify::spec_upstream_commits(repo, b, u, repo.chain(u, stop), locals)[k2].id,
{
    let u_chain = repo.chain(u, stop);
    let kept = |j: int| crate::classify::spec_upstream_kept(repo, b, u, u_chain, locals, j);
    let fc = u_chain.filter(kept);
    lemma_filter_elements(u_chain, kept, k2);
    let j = fc[k2];
    let m = choose|m: int| 0 <= m < u_chain.len() && u_chain[m] == j;
    crate::classify::lemma_chain_in_range(repo, u, stop);
    lemma_chain_reachable(repo, u, stop, m);
    let c = locals[k1];
    if repo.commits@[c].id == repo.commits@[j].id {
        assert(c == j) by {
            if c != j {
                assert(repo.commits@[c].id != repo.commits@[j].id);
            }
        }
        assert(repo.reach(u, c));
        assert(crate::classify::spec_remote_match(repo, u, u_chain, locals[k1])
            == Some(repo.commits@[j].id));
        assert(crate::classify::spec_matched_remote(repo, u, u_chain, locals, repo.commits@[j].id));
        assert(!kept(j));
        assert(false);
    }
}

/// Integration takes precedence in the assembled branch as well: with an
/// upstream configured, a local commit reachable from the integration
/// boundary is surfaced as `Integrated`.
pub proof fn lemma_branch_integration_takes_precedence(repo: Repo, b: int, m: BranchMetaView, k: int)
    requires
        0 <= b < repo.commits@.len(),
        crate::spec_upstream_idx(repo, m) is Some,
        0 <= k < spec_stack_branch(repo, b, m).commits.len(),
        repo.reach(
            b,
            repo.chain(crate::spec_resolve_idx(repo, m.name)->0, repo.commits@[b].id)[k],
        ),
    ensures
        spec_stack_branch(repo, b, m).commits[k].state == CommitState::Integrated,
{
    let local = crate::spec_resolve_idx(repo, m.name)->0;
    let ch = repo.chain(local, repo.commits@[b].id);
    let u = crate::spec_upstream_idx(repo, m)->0;
    let u_chain = repo.chain(u, repo.commits@[b].id);
    assert(spec_stack_branch(repo, b, m).commits[k].state
        == spec_commit_state(repo, b, u, u_chain, ch[k]));
    lemma_integration_takes_precedence(repo, b, u, u_chain, ch[k]);
}

} // verus!
