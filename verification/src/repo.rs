//! A plain-value snapshot of the repository: commit records, references and
//! configuration. Commits are stored parents-before-children, so every
//! ancestry walk strictly descends in storage index: walks terminate on any
//! well-formed snapshot, diverged histories included.
use vstd::prelude::*;

use crate::config::Config;

verus! {

/// Identifies a stack in the state store.
#[derive(Debug, Clone, Copy, PartialEq, Eq, Hash, Structural)]
pub struct StackId(pub u64);

/// A content-addressed commit identifier.
#[derive(Debug, Clone, Copy, PartialEq, Eq, Hash, Structural)]
pub struct CommitId(pub u64);

/// One commit record of the repository store.
#[derive(Debug, Clone)]
pub struct Commit {
    /// The object identifier of the commit.
    pub id: CommitId,
    /// The identifiers of the parent commits; the first entry is the
    /// first parent. Empty for a root commit.
    pub parents: Vec<CommitId>,
    /// The commit message.
    pub message: Vec<u8>,
    /// A fingerprint of the commit's patch content, stable across rebases
    /// that keep the change but alter ancestry.
    pub fingerprint: u64,
    /// Whether the commit is in a conflicted state. Set by the rebase and
    /// reorder machinery, only surfaced here.
    pub has_conflicts: bool,
}

/// A named reference and the commit it points at.
#[derive(Debug, Clone)]
pub struct RefEntry {
    /// The fully qualified reference name.
    pub name: Vec<u8>,
    /// The commit the reference resolves to.
    pub target: CommitId,
}

/// The repository snapshot the classification works on.
#[derive(Debug, Clone)]
pub struct Repo {
    /// All commit records, each stored after all of its parents.
    pub commits: Vec<Commit>,
    /// The reference database.
    pub refs: Vec<RefEntry>,
    /// The repository configuration.
    pub config: Config,
}

impl Repo {
    /// Whether some commit record carries the identifier `id`.
    pub open spec fn spec_has_id(self, id: CommitId) -> bool {
        exists|j: int| 0 <= j < self.commits@.len() && #[trigger] self.commits@[j].id == id
    }

    /// The storage index of the commit with identifier `id`; meaningful
    /// only when `spec_has_id(id)` holds.
    pub open spec fn idx_of(self, id: CommitId) -> int {
        choose|j: int| 0 <= j < self.commits@.len() && #[trigger] self.commits@[j].id == id
    }

    /// Whether the parent list entry `k` of the commit at index `i` names
    /// a commit stored at a strictly lower index.
    pub open spec fn parent_stored_below(self, i: int, k: int) -> bool {
        exists|j: int|
            0 <= j < i && #[trigger] self.commits@[j].id == self.commits@[i].parents@[k]
    }

    /// A well-formed store: commit identifiers are unique and every parent
    /// of a commit is stored at a strictly lower index. A snapshot that
    /// violates this is corrupt.
    pub open spec fn wf(self) -> bool {
        &&& forall|i: int, j: int|
            0 <= i < self.commits@.len() && 0 <= j < self.commits@.len() && i != j
                ==> #[trigger] self.commits@[i].id != #[trigger] self.commits@[j].id
        &&& forall|i: int, k: int|
            0 <= i < self.commits@.len() && 0 <= k < self.commits@[i].parents@.len()
                ==> #[trigger] self.parent_stored_below(i, k)
    }

    /// Whether the commit at index `i` has the commit at index `j` as a
    /// direct parent.
    pub open spec fn step(self, i: int, j: int) -> bool {
        &&& 0 <= j < i < self.commits@.len()
        &&& exists|k: int|
            0 <= k < self.commits@[i].parents@.len()
                && #[trigger] self.commits@[i].parents@[k] == self.commits@[j].id
    }

    /// Whether the commit at index `t` is reachable from the commit at
    /// index `s` by a parent walk whose every non-terminal node has index
    /// at least `b`. With `b == 0` this is plain ancestry reachability
    /// (a commit reaches itself).
    pub open spec fn reach_above(self, s: int, t: int, b: int) -> bool
        decreases s,
    {
        &&& 0 <= s < self.commits@.len()
        &&& 0 <= t < self.commits@.len()
        &&& (s == t || (s >= b && exists|j: int|
            0 <= j < s && #[trigger] self.step(s, j) && self.reach_above(j, t, b)))
    }

    /// Plain ancestry: the commit at index `t` equals, or is an ancestor
    /// of, the commit at index `s`.
    pub open spec fn reach(self, s: int, t: int) -> bool {
        self.reach_above(s, t, 0)
    }

    /// The repository configuration, as a snapshot of its own.
    pub fn config(&self) -> (r: Result<Config, crate::Error>)
        ensures
            r is Ok,
            r->Ok_0@ == self.config@,
    {
        Ok(self.config.duplicate())
    }

    /// Finds the storage index of the commit with identifier `id`.
    pub fn find(&self, id: CommitId) -> (r: Option<usize>)
        ensures
            r is Some ==> 0 <= r->0 < self.commits@.len() && self.commits@[r->0 as int].id == id,
            r is None ==> !self.spec_has_id(id),
            r is Some ==> self.spec_has_id(id),
    {
        let n = self.commits.len();
        let mut i: usize = 0;
        while i < n
            invariant
                n == self.commits@.len(),
                i <= n,
                forall|j: int| 0 <= j < i ==> #[trigger] self.commits@[j].id != id,
            decreases n - i,
        {
            if self.commits[i].id == id {
                return Some(i);
            }
            i += 1;
        }
        None
    }

    /// Resolves a reference name to the commit it points at, taking the
    /// first entry with that name.
    pub fn resolve(&self, name: &Vec<u8>) -> (r: Option<CommitId>)
        ensures
            r == self.spec_resolve(name@),
    {
        let n = self.refs.len();
        let mut i: usize = 0;
        while i < n
            invariant
                n == self.refs@.len(),
                i <= n,
                forall|j: int| 0 <= j < i ==> #[trigger] self.refs@[j].name@ != name@,
            decreases n - i,
        {
            if crate::bytes_eq(&self.refs[i].name, name) {
                proof {
                    lemma_spec_resolve_found(*self, name@, i as int);
                }
                return Some(self.refs[i].target);
            }
            i += 1;
        }
        None
    }

    /// Looks up the parent entry `k` of the commit at index `i`. In a
    /// well-formed store the parent is stored at a strictly lower index.
    fn parent_index(&self, i: usize, k: usize) -> (p: usize)
        requires
            self.wf(),
            i < self.commits@.len(),
            k < self.commits@[i as int].parents@.len(),
        ensures
            p < i,
            self.commits@[p as int].id == self.commits@[i as int].parents@[k as int],
            self.step(i as int, p as int),
    {
        let id = self.commits[i].parents[k];
        proof {
            assert(self.parent_stored_below(i as int, k as int));
        }
        match self.find(id) {
            Some(p) => {
                proof {
                    let j = choose|j: int| 0 <= j < i && self.commits@[j].id == id;
                    assert(self.commits@[j].id == id);
                    if p as int != j {
                        assert(self.commits@[p as int].id != self.commits@[j].id);
                    }
                    assert(self.step(i as int, p as int)) by {
                        assert(self.commits@[i as int].parents@[k as int]
                            == self.commits@[p as int].id);
                    }
                }
                p
            },
            None => {
                proof {
                    let j = choose|j: int| 0 <= j < i && self.commits@[j].id == id;
                    assert(self.commits@[j].id == id);
                    assert(false);
                }
                0
            },
        }
    }

    /// Lowering the index bound of a walk never loses reachability.
    proof fn lemma_reach_above_mono(self, s: int, t: int, b1: int, b2: int)
        requires
            b1 <= b2,
            self.reach_above(s, t, b2),
        ensures
            self.reach_above(s, t, b1),
        decreases s,
    {
        if s != t {
            let j = choose|j: int| 0 <= j < s && #[trigger] self.step(s, j)
                && self.reach_above(j, t, b2);
            self.lemma_reach_above_mono(j, t, b1, b2);
        }
    }

    /// A walk above `b + 1` that ends at `b` extends through one parent
    /// step out of `b` into a walk above `b`.
    proof fn lemma_reach_above_extend(self, s: int, t: int, b: int)
        requires
            self.reach_above(s, b, b + 1),
            self.step(b, t),
        ensures
            self.reach_above(s, t, b),
        decreases s,
    {
        if s == b {
            assert(self.reach_above(t, t, b));
        } else {
            let j = choose|j: int| 0 <= j < s && #[trigger] self.step(s, j)
                && self.reach_above(j, b, b + 1);
            self.lemma_reach_above_extend(j, t, b);
        }
    }

    /// A walk above `b` either stays above `b + 1`, or passes through the
    /// commit at index `b` and leaves it by one parent step.
    proof fn lemma_reach_above_split(self, s: int, t: int, b: int)
        requires
            self.reach_above(s, t, b),
        ensures
            self.reach_above(s, t, b + 1)
                || (self.reach_above(s, b, b + 1) && self.step(b, t)),
        decreases s,
    {
        if s != t {
            let j = choose|j: int| 0 <= j < s && #[trigger] self.step(s, j)
                && self.reach_above(j, t, b);
            self.lemma_reach_above_split(j, t, b);
            if self.reach_above(j, t, b + 1) {
                if s >= b + 1 {
                    assert(self.reach_above(s, t, b + 1));
                } else {
                    // s == b, so j < b cannot step; the walk from j is trivial.
                    assert(j == t);
                    assert(self.reach_above(s, b, b + 1));
                }
            } else {
                assert(self.reach_above(j, b, b + 1) && self.step(b, t));
                if s == b {
                    // j < s == b can neither be b nor step while above b + 1.
                    assert(j < b);
                    assert(false);
                } else {
                    assert(self.reach_above(s, b, b + 1));
                }
            }
        }
    }

    /// How reachability under bound `b` relates to bound `b + 1`: the walk
    /// either never leaves the region above `b`, or its last descent is the
    /// parent step out of the commit at index `b`.
    proof fn lemma_reach_above_lower(self, s: int, t: int, b: int)
        requires
            0 <= s < self.commits@.len(),
            0 <= t < self.commits@.len(),
            0 <= b < self.commits@.len(),
        ensures
            self.reach_above(s, t, b) <==> (self.reach_above(s, t, b + 1)
                || (self.reach_above(s, b, b + 1) && self.step(b, t))),
    {
        if self.reach_above(s, t, b) {
            self.lemma_reach_above_split(s, t, b);
        }
        if self.reach_above(s, t, b + 1) {
            self.lemma_reach_above_mono(s, t, b, b + 1);
        }
        if self.reach_above(s, b, b + 1) && self.step(b, t) {
            self.lemma_reach_above_extend(s, t, b);
        }
    }

    /// Marks every commit reachable from the commit at index `s`: the
    /// frontier traversal, processed in descending storage index so that
    /// each commit's parents are marked after it.
    pub fn mark_reachable(&self, s: usize) -> (r: Vec<bool>)
        requires
            self.wf(),
            s < self.commits@.len(),
        ensures
            r@.len() == self.commits@.len(),
            forall|t: int| 0 <= t < r@.len() ==> #[trigger] r@[t] == self.reach(s as int, t),
    {
        let n = self.commits.len();
        let mut mark: Vec<bool> = Vec::new();
        let mut i: usize = 0;
        while i < n
            invariant
                i <= n,
                mark@.len() == i,
                forall|t: int| 0 <= t < i ==> !(#[trigger] mark@[t]),
            decreases n - i,
        {
            mark.push(false);
            i += 1;
        }
        mark.set(s, true);
        assert forall|t: int| 0 <= t < n implies #[trigger] mark@[t]
            == self.reach_above(s as int, t, s + 1) by {
            if t != s {
                assert(!self.reach_above(s as int, t, s + 1));
            }
        }
        let mut i: usize = s + 1;
        while i > 0
            invariant
                self.wf(),
                s < n,
                n == self.commits@.len(),
                mark@.len() == n,
                i <= s + 1,
                forall|t: int| 0 <= t < n ==> #[trigger] mark@[t]
                    == self.reach_above(s as int, t, i as int),
            decreases i,
        {
            i -= 1;
            let ghost mark0 = mark@;
            if mark[i] {
                let np = self.commits[i].parents.len();
                let mut k: usize = 0;
                while k < np
                    invariant
                        self.wf(),
                        s < n,
                        n == self.commits@.len(),
                        mark@.len() == n,
                        i < n,
                        np == self.commits@[i as int].parents@.len(),
                        k <= np,
                        mark0.len() == n,
                        forall|t: int| 0 <= t < n ==> #[trigger] mark@[t] == (mark0[t]
                            || (0 <= t < i && exists|m: int|
                                0 <= m < k && self.commits@[i as int].parents@[m]
                                    == self.commits@[t].id)),
                    decreases np - k,
                {
                    let p = self.parent_index(i, k);
                    let ghost before = mark@;
                    mark.set(p, true);
                    assert forall|t: int| 0 <= t < n implies #[trigger] mark@[t] == (mark0[t]
                        || (0 <= t < i && exists|m: int|
                            0 <= m < k + 1 && self.commits@[i as int].parents@[m]
                                == self.commits@[t].id)) by {
                        if t == p as int {
                            assert(self.commits@[i as int].parents@[k as int]
                                == self.commits@[t].id);
                        } else {
                            assert(mark@[t] == before[t]);
                            if self.commits@[i as int].parents@[k as int]
                                == self.commits@[t].id {
                                assert(self.commits@[t].id == self.commits@[p as int].id);
                                assert(false);
                            }
                        }
                    }
                    k += 1;
                }
                assert forall|t: int| 0 <= t < n implies #[trigger] mark@[t]
                    == (mark0[t] || self.step(i as int, t)) by {
                    if mark0[t] {
                    } else if self.step(i as int, t) {
                        let m = choose|m: int|
                            0 <= m < self.commits@[i as int].parents@.len()
                                && #[trigger] self.commits@[i as int].parents@[m]
                                    == self.commits@[t].id;
                        assert(0 <= m < np && self.commits@[i as int].parents@[m]
                            == self.commits@[t].id);
                    } else {
                        if mark@[t] {
                            let m = choose|m: int|
                                0 <= m < np && #[trigger] self.commits@[i as int].parents@[m]
                                    == self.commits@[t].id;
                            assert(self.step(i as int, t));
                        }
                    }
                }
            }
            assert forall|t: int| 0 <= t < n implies #[trigger] mark@[t]
                == self.reach_above(s as int, t, i as int) by {
                self.lemma_reach_above_lower(s as int, t, i as int);
                assert(mark0[i as int] == self.reach_above(s as int, i as int, i + 1));
            }
        }
        mark
    }

    /// The first-parent chain from the commit at index `i`, newest first,
    /// stopping at (and excluding) the commit `stop`. The chain ends at a
    /// root commit when `stop` is never met.
    pub open spec fn chain(self, i: int, stop: CommitId) -> Seq<int>
        decreases i,
    {
        if !(0 <= i < self.commits@.len()) {
            Seq::empty()
        } else if self.commits@[i].id == stop {
            Seq::empty()
        } else if self.commits@[i].parents@.len() == 0 {
            seq![i]
        } else {
            let p = self.idx_of(self.commits@[i].parents@[0]);
            if 0 <= p < i {
                seq![i] + self.chain(p, stop)
            } else {
                seq![i]
            }
        }
    }

    /// Walks the first-parent chain from the commit at index `head`,
    /// collecting storage indices newest first, stopping at (and
    /// excluding) the commit `stop`.
    pub fn collect_chain(&self, head: usize, stop: CommitId) -> (r: Vec<usize>)
        requires
            self.wf(),
            head < self.commits@.len(),
        ensures
            r@.map_values(|u: usize| u as int) == self.chain(head as int, stop),
    {
        let ghost full = self.chain(head as int, stop);
        let mut out: Vec<usize> = Vec::new();
        let mut cur: usize = head;
        loop
            invariant_except_break
                self.wf(),
                cur < self.commits@.len(),
                full == self.chain(head as int, stop),
                full =~= out@.map_values(|u: usize| u as int) + self.chain(cur as int, stop),
            ensures
                full == out@.map_values(|u: usize| u as int),
            decreases cur,
        {
            let ghost pre = out@;
            if self.commits[cur].id == stop {
                assert(self.chain(cur as int, stop) =~= Seq::<int>::empty());
                assert(full =~= out@.map_values(|u: usize| u as int));
                break;
            }
            out.push(cur);
            assert(out@.map_values(|u: usize| u as int)
                =~= pre.map_values(|u: usize| u as int).push(cur as int));
            if self.commits[cur].parents.len() == 0 {
                assert(self.chain(cur as int, stop) =~= seq![cur as int]);
                assert(full =~= out@.map_values(|u: usize| u as int));
                break;
            }
            let p = self.parent_index(cur, 0);
            proof {
                let ps = self.idx_of(self.commits@[cur as int].parents@[0]);
                assert(self.spec_has_id(self.commits@[cur as int].parents@[0])) by {
                    assert(self.commits@[p as int].id == self.commits@[cur as int].parents@[0]);
                }
                assert(self.commits@[ps].id == self.commits@[cur as int].parents@[0]);
                if ps != p as int {
                    assert(self.commits@[ps].id != self.commits@[p as int].id);
                }
                assert(self.chain(cur as int, stop)
                    =~= seq![cur as int] + self.chain(p as int, stop));
                assert(full =~= out@.map_values(|u: usize| u as int)
                    + self.chain(p as int, stop));
            }
            cur = p;
        }
        out
    }

    /// Checks that the snapshot is well formed: commit identifiers unique,
    /// every parent stored below its child.
    pub fn check_wf(&self) -> (r: bool)
        ensures
            r == self.wf(),
    {
        let n = self.commits.len();
        let mut i: usize = 0;
        while i < n
            invariant
                i <= n,
                n == self.commits@.len(),
                forall|a: int, b: int|
                    0 <= a < i && 0 <= b < i && a != b
                        ==> #[trigger] self.commits@[a].id != #[trigger] self.commits@[b].id,
            decreases n - i,
        {
            let mut j: usize = 0;
            while j < i
                invariant
                    i < n,
                    n == self.commits@.len(),
                    j <= i,
                    forall|a: int, b: int|
                        0 <= a < i && 0 <= b < i && a != b
                            ==> #[trigger] self.commits@[a].id != #[trigger] self.commits@[b].id,
                    forall|b: int|
                        0 <= b < j ==> #[trigger] self.commits@[b].id != self.commits@[i as int].id,
                decreases i - j,
            {
                if self.commits[j].id == self.commits[i].id {
                    assert(!self.wf());
                    return false;
                }
                j += 1;
            }
            i += 1;
        }
        let ghost unique = forall|a: int, b: int|
            0 <= a < n && 0 <= b < n && a != b
                ==> #[trigger] self.commits@[a].id != #[trigger] self.commits@[b].id;
        assert(unique);
        let mut i: usize = 0;
        while i < n
            invariant
                i <= n,
                n == self.commits@.len(),
                unique,
                unique == (forall|a: int, b: int|
                    0 <= a < n && 0 <= b < n && a != b
                        ==> #[trigger] self.commits@[a].id != #[trigger] self.commits@[b].id),
                forall|a: int, k: int|
                    0 <= a < i && 0 <= k < self.commits@[a].parents@.len()
                        ==> #[trigger] self.parent_stored_below(a, k),
            decreases n - i,
        {
            let np = self.commits[i].parents.len();
            let mut k: usize = 0;
            while k < np
                invariant
                    i < n,
                    n == self.commits@.len(),
                    unique,
                    unique == (forall|a: int, b: int|
                        0 <= a < n && 0 <= b < n && a != b
                            ==> #[trigger] self.commits@[a].id != #[trigger] self.commits@[b].id),
                    np == self.commits@[i as int].parents@.len(),
                    k <= np,
                    forall|m: int|
                        0 <= m < k ==> #[trigger] self.parent_stored_below(i as int, m),
                decreases np - k,
            {
                let id = self.commits[i].parents[k];
                match self.find(id) {
                    Some(p) => {
                        if p >= i {
                            // The only commit with this identifier sits at or
                            // above the child: no parent below it.
                            assert(!self.parent_stored_below(i as int, k as int)) by {
                                if self.parent_stored_below(i as int, k as int) {
                                    let j = choose|j: int|
                                        0 <= j < i && #[trigger] self.commits@[j].id == id;
                                    assert(self.commits@[j].id == self.commits@[p as int].id);
                                }
                            }
                            assert(!self.wf());
                            return false;
                        }
                        assert(self.parent_stored_below(i as int, k as int));
                    },
                    None => {
                        assert(!self.parent_stored_below(i as int, k as int)) by {
                            if self.parent_stored_below(i as int, k as int) {
                                let j = choose|j: int|
                                    0 <= j < i && #[trigger] self.commits@[j].id == id;
                                assert(self.spec_has_id(id));
                            }
                        }
                        assert(!self.wf());
                        return false;
                    },
                }
                k += 1;
            }
            i += 1;
        }
        true
    }

    /// What `resolve` returns: the target of the first reference entry
    /// named `name`, or `None` when no entry has that name.
    pub open spec fn spec_resolve(self, name: Seq<u8>) -> Option<CommitId> {
        if exists|j: int| 0 <= j < self.refs@.len() && #[trigger] self.refs@[j].name@ == name {
            let j = choose|j: int|
                0 <= j < self.refs@.len() && #[trigger] self.refs@[j].name@ == name
                    && forall|k: int| 0 <= k < j ==> #[trigger] self.refs@[k].name@ != name;
            Some(self.refs@[j].target)
        } else {
            None
        }
    }
}

proof fn lemma_spec_resolve_found(repo: Repo, name: Seq<u8>, i: int)
    requires
        0 <= i < repo.refs@.len(),
        repo.refs@[i].name@ == name,
        forall|j: int| 0 <= j < i ==> #[trigger] repo.refs@[j].name@ != name,
    ensures
        repo.spec_resolve(name) == Some(repo.refs@[i].target),
{
    let j = choose|j: int|
        0 <= j < repo.refs@.len() && #[trigger] repo.refs@[j].name@ == name
            && forall|k: int| 0 <= k < j ==> #[trigger] repo.refs@[k].name@ != name;
    assert(exists|j: int|
        0 <= j < repo.refs@.len() && #[trigger] repo.refs@[j].name@ == name
            && forall|k: int| 0 <= k < j ==> #[trigger] repo.refs@[k].name@ != name) by {
        assert(0 <= i < repo.refs@.len() && repo.refs@[i].name@ == name
            && forall|k: int| 0 <= k < i ==> #[trigger] repo.refs@[k].name@ != name);
    }
    if j != i {
        assert(repo.refs@[i].name@ != name || repo.refs@[j].name@ != name);
    }
}

} // verus!
