//! A workspace is the combination of one or more branch *stacks* layered on
//! top of a repository. This library lists the stacks applied to a workspace
//! and, for every branch of a stack, classifies each commit by its relation
//! to the branch's upstream counterpart and to the workspace's integration
//! base (local-only, local-and-remote, integrated).
//!
//! The persistent stack state and the repository object store are external
//! collaborators; this library works on plain-value snapshots of both: a
//! [`WorkspaceState`] read from the state store, and a [`repo::Repo`] holding
//! the commit records and references that the classification walks.
use vstd::prelude::*;

pub mod classify;
pub mod config;
pub mod laws;
pub mod repo;

verus! {

use crate::repo::CommitId;
use crate::repo::Repo;
use crate::repo::StackId;

/// The error taxonomy of the library.
///
/// Failures are never swallowed into an empty result: a query either returns
/// a complete snapshot or one of these.
#[derive(Debug, Clone, Copy, PartialEq, Eq, Structural)]
pub enum Error {
    /// The persisted stack state is missing or corrupt.
    StateUnavailable,
    /// A named local or upstream reference does not resolve to a commit.
    RefResolutionError,
    /// The repository store is corrupt or unreadable during a graph walk.
    GraphWalkError,
}

/// A lightweight description of one stack, for listing.
#[derive(Debug, Clone)]
pub struct StackEntry {
    /// The identifier of the stack.
    pub id: StackId,
    /// The names of the branches that are part of the stack, topmost first.
    /// Never empty.
    pub branch_names: Vec<Vec<u8>>,
}

/// The mathematical value of a [`StackEntry`].
pub struct StackEntryView {
    /// The identifier of the stack.
    pub id: StackId,
    /// The branch names, topmost first.
    pub branch_names: Seq<Seq<u8>>,
}

impl View for StackEntry {
    type V = StackEntryView;

    open spec fn view(&self) -> StackEntryView {
        StackEntryView { id: self.id, branch_names: self.branch_names.deep_view() }
    }
}

/// One stack as the state store persists it.
#[derive(Debug, Clone)]
pub struct StoredStack {
    /// The identifier of the stack.
    pub id: StackId,
    /// Whether the stack is currently applied to the workspace.
    pub in_workspace: bool,
    /// The ordered head names of the stack, topmost first.
    pub heads: Vec<Vec<u8>>,
}

/// The mathematical value of a [`StoredStack`].
pub struct StoredStackView {
    /// The identifier of the stack.
    pub id: StackId,
    /// Whether the stack is currently applied to the workspace.
    pub in_workspace: bool,
    /// The ordered head names, topmost first.
    pub heads: Seq<Seq<u8>>,
}

impl View for StoredStack {
    type V = StoredStackView;

    open spec fn view(&self) -> StoredStackView {
        StoredStackView { id: self.id, in_workspace: self.in_workspace, heads: self.heads.deep_view() }
    }
}

/// The stack state store's contents, as read from disk.
#[derive(Debug, Clone)]
pub struct WorkspaceState {
    /// All persisted stacks, in the store's own order.
    pub stacks: Vec<StoredStack>,
}

impl View for WorkspaceState {
    type V = Seq<StoredStackView>;

    open spec fn view(&self) -> Seq<StoredStackView> {
        self.stacks.deep_view()
    }
}

impl DeepView for StoredStack {
    type V = StoredStackView;

    open spec fn deep_view(&self) -> StoredStackView {
        self@
    }
}

/// The store never persists a stack without heads; a snapshot that violates
/// this is corrupt.
pub open spec fn state_wf(state: Seq<StoredStackView>) -> bool {
    forall|i: int| 0 <= i < state.len() ==> #[trigger] state[i].heads.len() > 0
}

/// The entry that `stacks` derives for the stored stack `s`.
pub open spec fn spec_entry_of(s: StoredStackView) -> StackEntryView {
    StackEntryView { id: s.id, branch_names: s.heads }
}

/// The sequence of entries that `stacks` returns for a readable state:
/// the applied stacks, in store order, each mapped to its entry.
pub open spec fn spec_stacks(state: Seq<StoredStackView>) -> Seq<StackEntryView> {
    state.filter(|s: StoredStackView| s.in_workspace)
        .map_values(|s: StoredStackView| spec_entry_of(s))
}

/// Returns the list of stacks that are currently part of the workspace,
/// in the store's order. If no stacks are applied the list is empty, which
/// is not an error. `state` is `None` when the persisted state could not be
/// read; a readable but corrupt snapshot is rejected the same way.
pub fn stacks(state: Option<&WorkspaceState>) -> (r: Result<Vec<StackEntry>, Error>)
    ensures
        r is Ok <==> (state is Some && state_wf(state->0@)),
        r is Err ==> r->Err_0 == Error::StateUnavailable,
        r is Ok ==> r->Ok_0.deep_view() == spec_stacks(state->0@),
{
    let st = match state {
        Some(s) => s,
        None => {
            return Err(Error::StateUnavailable);
        },
    };
    let n = st.stacks.len();
    let mut i: usize = 0;
    // A stack without heads means the state file is corrupt: reject it whole.
    while i < n
        invariant
            state == Some(st),
            n == st.stacks@.len(),
            i <= n,
            forall|j: int| 0 <= j < i ==> #[trigger] st@[j].heads.len() > 0,
        decreases n - i,
    {
        if st.stacks[i].heads.len() == 0 {
            assert(st@[i as int].heads.len() == 0);
            assert(!state_wf(st@));
            return Err(Error::StateUnavailable);
        }
        assert(st@[i as int].heads.len() > 0);
        i += 1;
    }
    assert(state_wf(st@));
    let mut out: Vec<StackEntry> = Vec::new();
    let mut i: usize = 0;
    while i < n
        invariant
            n == st.stacks@.len(),
            i <= n,
            out.deep_view() == spec_stacks_prefix(st@, i as int),
        decreases n - i,
    {
        proof {
            lemma_spec_stacks_prefix_step(st@, i as int);
        }
        let s = &st.stacks[i];
        let ghost pre = out.deep_view();
        if s.in_workspace {
            let entry = StackEntry { id: s.id, branch_names: clone_names(&s.heads) };
            assert(entry@ == spec_entry_of(st@[i as int]));
            out.push(entry);
            assert(out.deep_view() =~= pre.push(entry@));
        }
        i += 1;
    }
    proof {
        assert(st@.subrange(0, n as int) =~= st@);
    }
    Ok(out)
}

impl DeepView for StackEntry {
    type V = StackEntryView;

    open spec fn deep_view(&self) -> StackEntryView {
        self@
    }
}

/// The entries derived from the first `i` stored stacks.
spec fn spec_stacks_prefix(state: Seq<StoredStackView>, i: int) -> Seq<StackEntryView> {
    spec_stacks(state.subrange(0, i))
}

proof fn lemma_spec_stacks_prefix_step(state: Seq<StoredStackView>, i: int)
    requires
        0 <= i < state.len(),
    ensures
        state[i].in_workspace ==> spec_stacks_prefix(state, i + 1)
            == spec_stacks_prefix(state, i).push(spec_entry_of(state[i])),
        !state[i].in_workspace ==> spec_stacks_prefix(state, i + 1)
            == spec_stacks_prefix(state, i),
{
    let pred = |s: StoredStackView| s.in_workspace;
    let f = |s: StoredStackView| spec_entry_of(s);
    let pre = state.subrange(0, i);
    let cur = state.subrange(0, i + 1);
    assert(cur =~= pre.push(state[i]));
    pre.lemma_filter_push(state[i], pred);
    if pred(state[i]) {
        assert(pre.filter(pred).push(state[i]).map_values(f)
            =~= pre.filter(pred).map_values(f).push(f(state[i])));
    }
}

/// Copies a list of branch names.
fn clone_names(names: &Vec<Vec<u8>>) -> (r: Vec<Vec<u8>>)
    ensures
        r.deep_view() == names.deep_view(),
{
    let mut out: Vec<Vec<u8>> = Vec::new();
    let mut i: usize = 0;
    while i < names.len()
        invariant
            i <= names@.len(),
            out@.len() == i,
            forall|j: int| 0 <= j < i ==> #[trigger] out@[j]@ == names@[j]@,
        decreases names@.len() - i,
    {
        out.push(clone_bytes(&names[i]));
        i += 1;
    }
    assert(out.deep_view() =~~= names.deep_view());
    out
}

/// Copies a byte string.
pub fn clone_bytes(b: &Vec<u8>) -> (r: Vec<u8>)
    ensures
        r@ == b@,
{
    let mut out: Vec<u8> = Vec::new();
    let mut i: usize = 0;
    while i < b.len()
        invariant
            i <= b@.len(),
            out@ == b@.subrange(0, i as int),
        decreases b@.len() - i,
    {
        out.push(b[i]);
        assert(out@ =~= b@.subrange(0, i as int + 1));
        i += 1;
    }
    assert(out@ =~= b@);
    out
}

/// The state a commit can be in, for rendering.
#[derive(Debug, Clone, Copy, PartialEq, Eq, Structural)]
pub enum CommitState {
    /// The commit exists only locally.
    LocalOnly,
    /// The commit is also present at the remote, under the carried
    /// identifier. The remote identifier can differ from the local one
    /// when the local commit was rebased or otherwise rewritten.
    LocalAndRemote(CommitId),
    /// The commit, or its content, is already part of the integration
    /// base.
    Integrated,
}

/// A commit of the local pseudo-branch, with state derived relative to
/// the branch it belongs to.
#[derive(Debug, Clone)]
pub struct StackBranchCommit {
    /// The object identifier of the commit.
    pub id: CommitId,
    /// The message of the commit.
    pub message: Vec<u8>,
    /// Whether the commit is in a conflicted state. Flagged by the rebase
    /// and reorder machinery, only surfaced here.
    pub has_conflicts: bool,
    /// The state relative to the upstream counterpart and the integration
    /// base. Remote-only commits are expressed as [`UpstreamCommit`]
    /// instead.
    pub state: CommitState,
}

/// The mathematical value of a [`StackBranchCommit`].
pub struct StackBranchCommitView {
    /// The object identifier of the commit.
    pub id: CommitId,
    /// The message bytes.
    pub message: Seq<u8>,
    /// Whether the commit is in a conflicted state.
    pub has_conflicts: bool,
    /// The derived state.
    pub state: CommitState,
}

impl View for StackBranchCommit {
    type V = StackBranchCommitView;

    open spec fn view(&self) -> StackBranchCommitView {
        StackBranchCommitView {
            id: self.id,
            message: self.message@,
            has_conflicts: self.has_conflicts,
            state: self.state,
        }
    }
}

impl DeepView for StackBranchCommit {
    type V = StackBranchCommitView;

    open spec fn deep_view(&self) -> StackBranchCommitView {
        self@
    }
}

/// A commit that exists only at the remote.
#[derive(Debug, Clone)]
pub struct UpstreamCommit {
    /// The object identifier of the commit.
    pub id: CommitId,
    /// The message of the commit.
    pub message: Vec<u8>,
}

/// The mathematical value of an [`UpstreamCommit`].
pub struct UpstreamCommitView {
    /// The object identifier of the commit.
    pub id: CommitId,
    /// The message bytes.
    pub message: Seq<u8>,
}

impl View for UpstreamCommit {
    type V = UpstreamCommitView;

    open spec fn view(&self) -> UpstreamCommitView {
        UpstreamCommitView { id: self.id, message: self.message@ }
    }
}

impl DeepView for UpstreamCommit {
    type V = UpstreamCommitView;

    open spec fn deep_view(&self) -> UpstreamCommitView {
        self@
    }
}

/// One branch of a stack: commits derived from the local pseudo-branch
/// and from its remote counterpart.
#[derive(Debug, Clone)]
pub struct StackBranch {
    /// The name of the branch.
    pub name: Vec<u8>,
    /// The remote-tracking reference, absent when never pushed.
    pub upstream_reference: Option<Vec<u8>>,
    /// The commits belonging to this branch, newest first, derived from
    /// the local pseudo-branch head.
    pub commits: Vec<StackBranchCommit>,
    /// The commits that exist only on the upstream branch, newest first.
    pub upstream_commits: Vec<UpstreamCommit>,
    /// A free-form description, supplied by the caller and opaque here.
    pub description: Option<String>,
    /// The pull-request number associated with the branch, if one exists;
    /// supplied by the caller and opaque here.
    pub pr_number: Option<usize>,
}

/// The mathematical value of a [`StackBranch`].
pub struct StackBranchView {
    /// The name bytes.
    pub name: Seq<u8>,
    /// The remote-tracking reference name, if configured.
    pub upstream_reference: Option<Seq<u8>>,
    /// The classified local commits, newest first.
    pub commits: Seq<StackBranchCommitView>,
    /// The upstream-only commits, newest first.
    pub upstream_commits: Seq<UpstreamCommitView>,
    /// The description, if supplied.
    pub description: Option<Seq<char>>,
    /// The pull-request number, if supplied.
    pub pr_number: Option<usize>,
}

impl View for StackBranch {
    type V = StackBranchView;

    open spec fn view(&self) -> StackBranchView {
        StackBranchView {
            name: self.name@,
            upstream_reference: self.upstream_reference.deep_view(),
            commits: self.commits.deep_view(),
            upstream_commits: self.upstream_commits.deep_view(),
            description: self.description.deep_view(),
            pr_number: self.pr_number,
        }
    }
}

impl DeepView for StackBranch {
    type V = StackBranchView;

    open spec fn deep_view(&self) -> StackBranchView {
        self@
    }
}

/// The caller-supplied description of one head of a stack, read from the
/// state store: its name, its configured remote-tracking reference, and
/// the metadata passed through verbatim.
#[derive(Debug, Clone)]
pub struct BranchMeta {
    /// The head name; resolved in the repository's reference database.
    pub name: Vec<u8>,
    /// The configured remote-tracking reference name, absent when the
    /// branch was never pushed.
    pub upstream_reference: Option<Vec<u8>>,
    /// A free-form description, passed through verbatim.
    pub description: Option<String>,
    /// The pull-request number, passed through verbatim.
    pub pr_number: Option<usize>,
}

/// The mathematical value of a [`BranchMeta`].
pub struct BranchMetaView {
    /// The head name bytes.
    pub name: Seq<u8>,
    /// The configured remote-tracking reference name, if any.
    pub upstream_reference: Option<Seq<u8>>,
    /// The description, if supplied.
    pub description: Option<Seq<char>>,
    /// The pull-request number, if supplied.
    pub pr_number: Option<usize>,
}

impl View for BranchMeta {
    type V = BranchMetaView;

    open spec fn view(&self) -> BranchMetaView {
        BranchMetaView {
            name: self.name@,
            upstream_reference: self.upstream_reference.deep_view(),
            description: self.description.deep_view(),
            pr_number: self.pr_number,
        }
    }
}

impl DeepView for BranchMeta {
    type V = BranchMetaView;

    open spec fn deep_view(&self) -> BranchMetaView {
        self@
    }
}

/// The storage index a reference name leads to: the commit the name
/// resolves to, when that commit exists in the store.
pub open spec fn spec_resolve_idx(repo: Repo, name: Seq<u8>) -> Option<int> {
    match repo.spec_resolve(name) {
        Some(id) => if repo.spec_has_id(id) {
            Some(repo.idx_of(id))
        } else {
            None
        },
        None => None,
    }
}

/// Whether one head's references all resolve to existing commits.
pub open spec fn spec_meta_resolved(repo: Repo, m: BranchMetaView) -> bool {
    &&& spec_resolve_idx(repo, m.name) is Some
    &&& m.upstream_reference is Some ==> spec_resolve_idx(repo, m.upstream_reference->0) is Some
}

/// Whether the target reference and every head's references resolve.
pub open spec fn spec_all_resolved(repo: Repo, target: Seq<u8>, metas: Seq<BranchMetaView>) -> bool {
    &&& spec_resolve_idx(repo, target) is Some
    &&& forall|i: int| 0 <= i < metas.len() ==> spec_meta_resolved(repo, #[trigger] metas[i])
}

/// The storage index of the configured upstream tip of a head, if any.
pub open spec fn spec_upstream_idx(repo: Repo, m: BranchMetaView) -> Option<int> {
    match m.upstream_reference {
        Some(n) => spec_resolve_idx(repo, n),
        None => None,
    }
}

/// The branch view assembled for one head against the integration
/// boundary at index `b`: classification of the commit sets, metadata
/// copied verbatim.
pub open spec fn spec_stack_branch(repo: Repo, b: int, m: BranchMetaView) -> StackBranchView {
    StackBranchView {
        name: m.name,
        upstream_reference: m.upstream_reference,
        commits: crate::classify::spec_branch_commits(
            repo,
            spec_resolve_idx(repo, m.name)->0,
            spec_upstream_idx(repo, m),
            b,
        ),
        upstream_commits: crate::classify::spec_branch_upstream_commits(
            repo,
            spec_resolve_idx(repo, m.name)->0,
            spec_upstream_idx(repo, m),
            b,
        ),
        description: m.description,
        pr_number: m.pr_number,
    }
}

/// The branch views `stack_branches` returns for a stack's heads.
pub open spec fn spec_stack_branches(repo: Repo, target: Seq<u8>, metas: Seq<BranchMetaView>) -> Seq<StackBranchView> {
    metas.map_values(|m: BranchMetaView| spec_stack_branch(repo, spec_resolve_idx(repo, target)->0, m))
}

/// Resolves a reference name to the storage index of its commit.
fn resolve_idx(repo: &Repo, name: &Vec<u8>) -> (r: Option<usize>)
    requires
        repo.wf(),
    ensures
        r is Some <==> spec_resolve_idx(*repo, name@) is Some,
        r is Some ==> r->0 as int == spec_resolve_idx(*repo, name@)->0
            && r->0 < repo.commits@.len(),
{
    match repo.resolve(name) {
        Some(id) => match repo.find(id) {
            Some(p) => {
                proof {
                    let j = repo.idx_of(id);
                    assert(repo.commits@[j].id == id);
                    if j != p as int {
                        assert(repo.commits@[j].id != repo.commits@[p as int].id);
                    }
                }
                Some(p)
            },
            None => None,
        },
        None => None,
    }
}

/// Assembles the branch view for one head against the boundary at index
/// `boundary`: pure composition of the classifier's output with the
/// caller-supplied metadata.
#[verifier::rlimit(100)]
fn assemble_branch(repo: &Repo, meta: &BranchMeta, boundary: usize) -> (r: Result<StackBranch, Error>)
    requires
        repo.wf(),
        boundary < repo.commits@.len(),
    ensures
        r is Ok <==> spec_meta_resolved(*repo, meta@),
        r is Err ==> r->Err_0 == Error::RefResolutionError,
        r is Ok ==> r->Ok_0@ == spec_stack_branch(*repo, boundary as int, meta@),
{
    let local = match resolve_idx(repo, &meta.name) {
        Some(l) => l,
        None => {
            return Err(Error::RefResolutionError);
        },
    };
    let upstream: Option<usize> = match &meta.upstream_reference {
        Some(uname) => {
            proof {
                assert(uname.deep_view() =~= uname@);
            }
            match resolve_idx(repo, uname) {
                Some(u) => Some(u),
                None => {
                    return Err(Error::RefResolutionError);
                },
            }
        },
        None => None,
    };
    proof {
        if meta.upstream_reference is Some {
            assert(meta.upstream_reference->0.deep_view() =~= meta.upstream_reference->0@);
        }
        assert(crate::classify::spec_upstream_of(upstream) == spec_upstream_idx(*repo, meta@));
    }
    let (commits, upstream_commits) = crate::classify::classify_branch(
        repo,
        local,
        upstream,
        boundary,
    );
    let upstream_reference: Option<Vec<u8>> = match &meta.upstream_reference {
        Some(uname) => Some(clone_bytes(uname)),
        None => None,
    };
    proof {
        if meta.upstream_reference is Some {
            assert(upstream_reference->0.deep_view() =~= meta.upstream_reference->0.deep_view());
        }
    }
    let branch = StackBranch {
        name: clone_bytes(&meta.name),
        upstream_reference: upstream_reference,
        commits: commits,
        upstream_commits: upstream_commits,
        description: match &meta.description {
            Some(d) => Some(d.clone()),
            None => None,
        },
        pr_number: meta.pr_number,
    };
    assert(branch@ == spec_stack_branch(*repo, boundary as int, meta@));
    Ok(branch)
}

/// Provides the relevant details of a particular stack: one assembled
/// branch per head, topmost first. The repository snapshot is checked
/// before any walk; the target reference names the integration base the
/// classification is made against.
pub fn stack_branches(repo: &Repo, heads: &Vec<BranchMeta>, target: &Vec<u8>) -> (r: Result<Vec<StackBranch>, Error>)
    ensures
        !repo.wf() ==> r == Err::<Vec<StackBranch>, Error>(Error::GraphWalkError),
        repo.wf() ==> (r is Ok <==> spec_all_resolved(*repo, target@, heads.deep_view())),
        repo.wf() && r is Err ==> r->Err_0 == Error::RefResolutionError,
        r is Ok ==> r->Ok_0.deep_view() == spec_stack_branches(*repo, target@, heads.deep_view()),
{
    if !repo.check_wf() {
        return Err(Error::GraphWalkError);
    }
    let boundary = match resolve_idx(repo, target) {
        Some(b) => b,
        None => {
            return Err(Error::RefResolutionError);
        },
    };
    let ghost metas = heads.deep_view();
    let ghost b_spec = spec_resolve_idx(*repo, target@)->0;
    proof {
        assert(boundary as int == b_spec);
    }
    let n = heads.len();
    let mut out: Vec<StackBranch> = Vec::new();
    let mut i: usize = 0;
    while i < n
        invariant
            repo.wf(),
            boundary < repo.commits@.len(),
            boundary as int == b_spec,
            b_spec == spec_resolve_idx(*repo, target@)->0,
            spec_resolve_idx(*repo, target@) is Some,
            metas == heads.deep_view(),
            n == heads@.len(),
            i <= n,
            forall|j: int| 0 <= j < i ==> spec_meta_resolved(*repo, #[trigger] metas[j]),
            out.deep_view() =~= metas.subrange(0, i as int).map_values(
                (|m: BranchMetaView| spec_stack_branch(*repo, b_spec, m)),
            ),
        decreases n - i,
    {
        let meta = &heads[i];
        proof {
            assert(meta@ == metas[i as int]);
        }
        let branch = match assemble_branch(repo, meta, boundary) {
            Ok(b) => b,
            Err(_) => {
                assert(!spec_meta_resolved(*repo, metas[i as int]));
                return Err(Error::RefResolutionError);
            },
        };
        let ghost pre = out.deep_view();
        out.push(branch);
        proof {
            let f = |m: BranchMetaView| spec_stack_branch(*repo, b_spec, m);
            assert(out.deep_view() =~= pre.push(f(metas[i as int])));
            assert(metas.subrange(0, i as int + 1)
                =~= metas.subrange(0, i as int).push(metas[i as int]));
            assert(metas.subrange(0, i as int + 1).map_values(f)
                =~= metas.subrange(0, i as int).map_values(f).push(f(metas[i as int])));
        }
        i += 1;
    }
    proof {
        assert(metas.subrange(0, n as int) =~= metas);
        assert(out.deep_view() =~= spec_stack_branches(*repo, target@, metas));
    }
    Ok(out)
}

/// Whether two byte strings hold the same bytes.
pub fn bytes_eq(a: &Vec<u8>, b: &Vec<u8>) -> (r: bool)
    ensures
        r == (a@ == b@),
{
    if a.len() != b.len() {
        assert(a@ != b@) by {
            assert(a@.len() != b@.len());
        }
        return false;
    }
    let mut i: usize = 0;
    while i < a.len()
        invariant
            a@.len() == b@.len(),
            i <= a@.len(),
            forall|j: int| 0 <= j < i ==> a@[j] == b@[j],
        decreases a@.len() - i,
    {
        if a[i] != b[i] {
            return false;
        }
        i += 1;
    }
    assert(a@ =~= b@);
    true
}

} // verus!
