use but_workspace::config::Config;
use but_workspace::repo::Commit;
use but_workspace::repo::CommitId;
use but_workspace::repo::RefEntry;
use but_workspace::repo::Repo;
use but_workspace::repo::StackId;
use but_workspace::stack_branches;
use but_workspace::stacks;
use but_workspace::BranchMeta;
use but_workspace::CommitState;
use but_workspace::Error;
use but_workspace::StackEntry;
use but_workspace::StoredStack;
use but_workspace::WorkspaceState;

fn commit(id: u64, parents: Vec<u64>, message: &str, fingerprint: u64) -> Commit {
    Commit {
        id: CommitId(id),
        parents: parents.into_iter().map(CommitId).collect(),
        message: message.as_bytes().to_vec(),
        fingerprint,
        has_conflicts: false,
    }
}

fn reference(name: &str, target: u64) -> RefEntry {
    RefEntry { name: name.as_bytes().to_vec(), target: CommitId(target) }
}

fn meta(name: &str, upstream: Option<&str>) -> BranchMeta {
    BranchMeta {
        name: name.as_bytes().to_vec(),
        upstream_reference: upstream.map(|u| u.as_bytes().to_vec()),
        description: None,
        pr_number: None,
    }
}

fn entries_equal(a: &[StackEntry], b: &[StackEntry]) -> bool {
    a.len() == b.len()
        && a.iter()
            .zip(b.iter())
            .all(|(x, y)| x.id == y.id && x.branch_names == y.branch_names)
}

#[test]
fn no_applied_stacks_lists_empty_not_error() {
    let state = WorkspaceState {
        stacks: vec![StoredStack {
            id: StackId(7),
            in_workspace: false,
            heads: vec![b"parked".to_vec()],
        }],
    };
    let listed = stacks(Some(&state)).unwrap();
    assert!(listed.is_empty());
}

#[test]
fn listing_preserves_head_order_and_nonempty_names() {
    let state = WorkspaceState {
        stacks: vec![
            StoredStack {
                id: StackId(1),
                in_workspace: true,
                heads: vec![b"top".to_vec(), b"middle".to_vec(), b"bottom".to_vec()],
            },
            StoredStack {
                id: StackId(2),
                in_workspace: false,
                heads: vec![b"unapplied".to_vec()],
            },
            StoredStack {
                id: StackId(3),
                in_workspace: true,
                heads: vec![b"solo".to_vec()],
            },
        ],
    };
    let listed = stacks(Some(&state)).unwrap();
    assert_eq!(listed.len(), 2);
    assert_eq!(listed[0].id, StackId(1));
    assert_eq!(
        listed[0].branch_names,
        vec![b"top".to_vec(), b"middle".to_vec(), b"bottom".to_vec()]
    );
    assert_eq!(listed[1].id, StackId(3));
    assert_eq!(listed[1].branch_names, vec![b"solo".to_vec()]);
    assert!(listed.iter().all(|e| !e.branch_names.is_empty()));
}

#[test]
fn listing_twice_is_identical() {
    let state = WorkspaceState {
        stacks: vec![
            StoredStack {
                id: StackId(4),
                in_workspace: true,
                heads: vec![b"a".to_vec(), b"b".to_vec()],
            },
            StoredStack {
                id: StackId(5),
                in_workspace: true,
                heads: vec![b"c".to_vec()],
            },
        ],
    };
    let first = stacks(Some(&state)).unwrap();
    let second = stacks(Some(&state)).unwrap();
    assert!(entries_equal(&first, &second));
}

#[test]
fn missing_state_fails_with_state_unavailable() {
    match stacks(None) {
        Err(Error::StateUnavailable) => {}
        other => panic!("expected StateUnavailable, got {:?}", other),
    }
}

#[test]
fn corrupt_state_fails_with_state_unavailable() {
    let state = WorkspaceState {
        stacks: vec![StoredStack { id: StackId(9), in_workspace: true, heads: vec![] }],
    };
    match stacks(Some(&state)) {
        Err(Error::StateUnavailable) => {}
        other => panic!("expected StateUnavailable, got {:?}", other),
    }
}

/// Scenario: one branch, no upstream reference, three local commits.
#[test]
fn single_branch_without_upstream_is_all_local_only() {
    let repo = Repo {
        commits: vec![
            commit(1, vec![], "base", 100),
            commit(2, vec![1], "first", 102),
            commit(3, vec![2], "second", 103),
            commit(4, vec![3], "third", 104),
        ],
        refs: vec![
            reference("refs/heads/main", 1),
            reference("refs/heads/feature", 4),
        ],
        config: Config::new(),
    };
    let heads = vec![meta("refs/heads/feature", None)];
    let branches = stack_branches(&repo, &heads, &b"refs/heads/main".to_vec()).unwrap();
    assert_eq!(branches.len(), 1);
    let branch = &branches[0];
    assert_eq!(branch.name, b"refs/heads/feature".to_vec());
    assert_eq!(branch.upstream_reference, None);
    assert_eq!(branch.commits.len(), 3);
    assert!(branch
        .commits
        .iter()
        .all(|c| c.state == CommitState::LocalOnly));
    assert!(branch.upstream_commits.is_empty());
}

/// Scenario: the remote carries the same three commits by content (other
/// identifiers after a rebase) plus one newer remote-only commit.
#[test]
fn rebased_remote_matches_by_content_and_surfaces_new_work() {
    let repo = Repo {
        commits: vec![
            commit(1, vec![], "base", 100),
            commit(2, vec![1], "first", 102),
            commit(3, vec![2], "second", 103),
            commit(4, vec![3], "third", 104),
            commit(12, vec![1], "first", 102),
            commit(13, vec![12], "second", 103),
            commit(14, vec![13], "third", 104),
            commit(15, vec![14], "remote only", 115),
        ],
        refs: vec![
            reference("refs/heads/main", 1),
            reference("refs/heads/feature", 4),
            reference("refs/remotes/origin/feature", 15),
        ],
        config: Config::new(),
    };
    let heads = vec![meta(
        "refs/heads/feature",
        Some("refs/remotes/origin/feature"),
    )];
    let branches = stack_branches(&repo, &heads, &b"refs/heads/main".to_vec()).unwrap();
    let branch = &branches[0];
    assert_eq!(
        branch.upstream_reference,
        Some(b"refs/remotes/origin/feature".to_vec())
    );
    assert_eq!(branch.commits.len(), 3);
    assert_eq!(branch.commits[0].id, CommitId(4));
    assert_eq!(branch.commits[0].state, CommitState::LocalAndRemote(CommitId(14)));
    assert_eq!(branch.commits[1].id, CommitId(3));
    assert_eq!(branch.commits[1].state, CommitState::LocalAndRemote(CommitId(13)));
    assert_eq!(branch.commits[2].id, CommitId(2));
    assert_eq!(branch.commits[2].state, CommitState::LocalAndRemote(CommitId(12)));
    assert_eq!(branch.upstream_commits.len(), 1);
    assert_eq!(branch.upstream_commits[0].id, CommitId(15));
    assert_eq!(branch.upstream_commits[0].message, b"remote only".to_vec());
}

/// Scenario: the branch is fully merged into the integration boundary.
#[test]
fn merged_branch_is_fully_integrated() {
    let repo = Repo {
        commits: vec![
            commit(1, vec![], "base", 100),
            commit(2, vec![1], "first", 102),
            commit(3, vec![2], "second", 103),
            commit(4, vec![1, 3], "merge feature", 140),
        ],
        refs: vec![
            reference("refs/heads/main", 4),
            reference("refs/heads/feature", 3),
            reference("refs/remotes/origin/feature", 3),
        ],
        config: Config::new(),
    };
    let heads = vec![meta(
        "refs/heads/feature",
        Some("refs/remotes/origin/feature"),
    )];
    let branches = stack_branches(&repo, &heads, &b"refs/heads/main".to_vec()).unwrap();
    let branch = &branches[0];
    assert_eq!(branch.commits.len(), 3);
    assert!(branch
        .commits
        .iter()
        .all(|c| c.state == CommitState::Integrated));
    assert!(branch.upstream_commits.is_empty());
}

/// The commit lists come newest first; reversing twice recovers the order.
#[test]
fn commit_order_is_newest_first() {
    let repo = Repo {
        commits: vec![
            commit(1, vec![], "base", 100),
            commit(2, vec![1], "first", 102),
            commit(3, vec![2], "second", 103),
            commit(4, vec![3], "third", 104),
        ],
        refs: vec![
            reference("refs/heads/main", 1),
            reference("refs/heads/feature", 4),
        ],
        config: Config::new(),
    };
    let heads = vec![meta("refs/heads/feature", None)];
    let branches = stack_branches(&repo, &heads, &b"refs/heads/main".to_vec()).unwrap();
    let ids: Vec<u64> = branches[0].commits.iter().map(|c| c.id.0).collect();
    assert_eq!(ids, vec![4, 3, 2]);
    let mut twice = ids.clone();
    twice.reverse();
    twice.reverse();
    assert_eq!(twice, ids);
}

#[test]
fn empty_branch_head_at_boundary_yields_no_commits() {
    let repo = Repo {
        commits: vec![commit(1, vec![], "base", 100)],
        refs: vec![
            reference("refs/heads/main", 1),
            reference("refs/heads/feature", 1),
        ],
        config: Config::new(),
    };
    let heads = vec![meta("refs/heads/feature", None)];
    let branches = stack_branches(&repo, &heads, &b"refs/heads/main".to_vec()).unwrap();
    assert!(branches[0].commits.is_empty());
    assert!(branches[0].upstream_commits.is_empty());
}

#[test]
fn unknown_reference_fails_with_ref_resolution_error() {
    let repo = Repo {
        commits: vec![commit(1, vec![], "base", 100)],
        refs: vec![reference("refs/heads/main", 1)],
        config: Config::new(),
    };
    let heads = vec![meta("refs/heads/feature", None)];
    match stack_branches(&repo, &heads, &b"refs/heads/main".to_vec()) {
        Err(Error::RefResolutionError) => {}
        other => panic!("expected RefResolutionError, got {:?}", other),
    }
}

#[test]
fn corrupt_store_fails_with_graph_walk_error() {
    // The second commit names a parent that is not stored at all.
    let repo = Repo {
        commits: vec![
            commit(1, vec![], "base", 100),
            commit(2, vec![42], "orphan", 102),
        ],
        refs: vec![
            reference("refs/heads/main", 1),
            reference("refs/heads/feature", 2),
        ],
        config: Config::new(),
    };
    let heads = vec![meta("refs/heads/feature", None)];
    match stack_branches(&repo, &heads, &b"refs/heads/main".to_vec()) {
        Err(Error::GraphWalkError) => {}
        other => panic!("expected GraphWalkError, got {:?}", other),
    }
}

#[test]
fn conflicted_flag_and_metadata_are_surfaced_verbatim() {
    let mut conflicted = commit(2, vec![1], "first", 102);
    conflicted.has_conflicts = true;
    let repo = Repo {
        commits: vec![commit(1, vec![], "base", 100), conflicted],
        refs: vec![
            reference("refs/heads/main", 1),
            reference("refs/heads/feature", 2),
        ],
        config: Config::new(),
    };
    let heads = vec![BranchMeta {
        name: b"refs/heads/feature".to_vec(),
        upstream_reference: None,
        description: Some(String::from("work in progress")),
        pr_number: Some(17),
    }];
    let branches = stack_branches(&repo, &heads, &b"refs/heads/main".to_vec()).unwrap();
    let branch = &branches[0];
    assert!(branch.commits[0].has_conflicts);
    assert_eq!(branch.commits[0].message, b"first".to_vec());
    assert_eq!(branch.description, Some(String::from("work in progress")));
    assert_eq!(branch.pr_number, Some(17));
}

/// A commit reachable from the boundary stays `Integrated` even though the
/// remote also carries it: integration takes precedence.
#[test]
fn integration_takes_precedence_over_remote_match() {
    let repo = Repo {
        commits: vec![
            commit(1, vec![], "base", 100),
            commit(2, vec![1], "shared", 102),
            commit(3, vec![2], "boundary advanced", 130),
            commit(4, vec![2], "local tip", 104),
            commit(12, vec![1], "shared rebased", 102),
        ],
        refs: vec![
            reference("refs/heads/main", 3),
            reference("refs/heads/feature", 4),
            reference("refs/remotes/origin/feature", 12),
        ],
        config: Config::new(),
    };
    let heads = vec![meta(
        "refs/heads/feature",
        Some("refs/remotes/origin/feature"),
    )];
    let branches = stack_branches(&repo, &heads, &b"refs/heads/main".to_vec()).unwrap();
    let branch = &branches[0];
    // The walk from the tip collects 4, then 2, then 1; 2 and 1 are
    // reachable from the boundary, so they classify as integrated even
    // though commit 2's content is also present upstream as commit 12.
    assert_eq!(branch.commits.len(), 3);
    assert_eq!(branch.commits[0].state, CommitState::LocalOnly);
    assert_eq!(branch.commits[1].state, CommitState::Integrated);
    assert_eq!(branch.commits[2].state, CommitState::Integrated);
}
