use gws::commands::exit_code;
use gws::commands::format_message_line;
use gws::commands::is_selected;
use gws::commands::keep_in_report;
use gws::commands::CredentialAttempts;
use gws::commands::CredentialChoice;
use gws::commands::FastForward;
use gws::commands::Fetch;
use gws::commands::Status;
use gws::config::Project;
use gws::config::Remote;
use gws::error::Error;
use gws::ff::is_aligned;
use gws::ff::reflog_message;
use gws::graph::CommitGraph;
use gws::status::dirty_state;
use gws::status::project_status;
use gws::status::BranchStatus;
use gws::status::DirtyState;
use gws::status::LocalBranch;
use gws::status::RepoState;
use gws::status::UpstreamBranch;

fn project() -> Project {
    Project {
        path: "repo".to_string(),
        main_remote: Remote {
            url: "u".to_string(),
            name: "origin".to_string(),
        },
        extra_remotes: vec![],
    }
}

/// Builds a graph from parent lists, commit `i` named `c<i>`.
fn graph(parents: Vec<Vec<usize>>) -> (CommitGraph, Vec<String>) {
    let mut g = CommitGraph::new();
    let mut ids = Vec::new();
    for (i, ps) in parents.into_iter().enumerate() {
        assert_eq!(g.add_commit(ps), Some(i));
        ids.push(format!("c{}", i));
    }
    (g, ids)
}

fn branch(name: &str, tip: usize, upstream: Option<(&str, usize)>) -> LocalBranch {
    LocalBranch {
        name: Some(name.to_string()),
        tip,
        upstream: upstream.map(|(n, t)| UpstreamBranch {
            name: n.to_string(),
            tip: t,
        }),
        is_head: false,
    }
}

fn state(parents: Vec<Vec<usize>>, mut branches: Vec<LocalBranch>, head: Option<usize>, files: Vec<u32>) -> RepoState {
    let (graph, commit_ids) = graph(parents);
    if let Some(h) = head {
        branches[h].is_head = true;
    }
    let s = RepoState {
        graph,
        commit_ids,
        branches,
        file_statuses: files,
    };
    assert!(s.is_consistent());
    s
}

fn status_command() -> Status {
    Status {
        only_changes: false,
        projects: vec![],
    }
}

fn record(name: &str, upstream: Option<&str>, dirty: DirtyState, is_head: bool, in_sync: Option<bool>) -> BranchStatus {
    BranchStatus {
        name: name.to_string(),
        upstream_name: upstream.map(|s| s.to_string()),
        dirty,
        is_head,
        in_sync,
        upstream_fetched: false,
        fast_forwarded: false,
    }
}

#[test]
fn clean_repository_status() {
    let mut s = state(
        vec![vec![]],
        vec![branch("feature", 0, None), branch("master", 0, Some(("origin/master", 0)))],
        Some(1),
        vec![0, 16384],
    );
    assert_eq!(
        status_command().run_project(&project(), &mut s),
        Ok(vec![
            record("feature", None, DirtyState::Clean, false, None),
            record("master", Some("origin/master"), DirtyState::Clean, true, Some(true)),
        ])
    );
}

#[test]
fn dirtiness_is_reported_on_the_head_branch_only() {
    let s = state(
        vec![vec![]],
        vec![branch("feature", 0, None), branch("master", 0, Some(("origin/master", 0)))],
        Some(0),
        vec![128, 256],
    );
    let st = project_status(&project(), &s).unwrap();
    assert_eq!(st[0].dirty, DirtyState::UncommittedChanges);
    assert_eq!(st[1].dirty, DirtyState::Clean);
    assert!(!st[0].is_clean());
    assert!(st[1].is_clean());
}

#[test]
fn diverged_branch_is_not_fast_forwarded() {
    // c1 and c2 both descend from c0 only.
    let mut s = state(
        vec![vec![], vec![0], vec![0]],
        vec![branch("master", 1, Some(("origin/master", 2)))],
        Some(0),
        vec![],
    );
    let st = status_command().run_project(&project(), &mut s).unwrap();
    assert_eq!(st[0].in_sync, Some(false));
    let mut s2 = state(
        vec![vec![], vec![0], vec![0]],
        vec![branch("master", 1, Some(("origin/master", 2)))],
        Some(0),
        vec![],
    );
    let fetched = Fetch { status_command: status_command() }.run_project(&project(), &mut s, &mut s2).unwrap();
    let s = s2;
    assert!(is_aligned(&s, &fetched));
    let ff = FastForward {
        fetch_command: Fetch { status_command: status_command() },
    };
    let (after, updates) = ff.run_project(fetched, &s, "gws");
    assert!(!after[0].fast_forwarded);
    assert!(updates[0].is_none());
}

#[test]
fn unfetched_upstream_commit_is_fetched_then_fast_forwarded() {
    // History c0 <- c1; the remote has c2 on top of c1.
    let mut before = state(
        vec![vec![], vec![0]],
        vec![
            branch("master", 1, Some(("origin/master", 1))),
            branch("other", 0, Some(("origin/other", 0))),
        ],
        Some(0),
        vec![],
    );
    let mut after = state(
        vec![vec![], vec![0], vec![1]],
        vec![
            branch("master", 1, Some(("origin/master", 2))),
            branch("other", 0, Some(("origin/other", 0))),
        ],
        Some(0),
        vec![],
    );
    let fetch = Fetch { status_command: status_command() };

    let first = fetch.run_project(&project(), &mut before, &mut after).unwrap();
    assert!(first[0].upstream_fetched);
    assert!(!first[1].upstream_fetched);

    let mut again = state(
        vec![vec![], vec![0], vec![1]],
        vec![
            branch("master", 1, Some(("origin/master", 2))),
            branch("other", 0, Some(("origin/other", 0))),
        ],
        Some(0),
        vec![],
    );
    let second = fetch.run_project(&project(), &mut after, &mut again).unwrap();
    let after = again;
    assert!(!second[0].upstream_fetched);
    assert!(!second[1].upstream_fetched);

    let ff = FastForward { fetch_command: Fetch { status_command: status_command() } };
    let (st, updates) = ff.run_project(second, &after, "gws");
    assert!(st[0].fast_forwarded);
    assert!(!st[1].fast_forwarded);
    let update = updates[0].as_ref().unwrap();
    assert_eq!(update.branch, "master");
    assert_eq!(update.target, "c2");
    assert!(update.checkout);
    assert_eq!(update.message, "gws: Fast-forward master to upstream origin/master");
    assert!(updates[1].is_none());
}

#[test]
fn branch_behind_by_several_commits_is_fast_forwarded() {
    // c0 <- c1 <- c2 <- c3, with a side branch c4 from c1 merged in c5.
    let mut s = state(
        vec![vec![], vec![0], vec![1], vec![2], vec![1], vec![3, 4]],
        vec![
            branch("dev", 2, Some(("origin/dev", 5))),
            branch("master", 1, Some(("origin/master", 3))),
        ],
        None,
        vec![],
    );
    let st = status_command().run_project(&project(), &mut s).unwrap();
    let ff = FastForward { fetch_command: Fetch { status_command: status_command() } };
    let (st, updates) = ff.run_project(st, &s, "gws");
    assert!(st[0].fast_forwarded);
    assert_eq!(updates[0].as_ref().unwrap().target, "c5");
    assert!(!updates[0].as_ref().unwrap().checkout);
    assert!(st[1].fast_forwarded);
    assert_eq!(updates[1].as_ref().unwrap().target, "c3");
}

#[test]
fn dirty_head_is_not_fast_forwarded() {
    let mut s = state(
        vec![vec![], vec![0]],
        vec![branch("master", 0, Some(("origin/master", 1)))],
        Some(0),
        vec![256],
    );
    let st = status_command().run_project(&project(), &mut s).unwrap();
    let ff = FastForward { fetch_command: Fetch { status_command: status_command() } };
    let (st, updates) = ff.run_project(st, &s, "gws");
    assert!(!st[0].fast_forwarded);
    assert!(updates[0].is_none());
}

#[test]
fn branch_ahead_of_upstream_is_not_moved() {
    let mut s = state(
        vec![vec![], vec![0]],
        vec![branch("master", 1, Some(("origin/master", 0)))],
        None,
        vec![],
    );
    let st = status_command().run_project(&project(), &mut s).unwrap();
    let ff = FastForward { fetch_command: Fetch { status_command: status_command() } };
    let (st, updates) = ff.run_project(st, &s, "gws");
    assert!(!st[0].fast_forwarded);
    assert!(updates[0].is_none());
    assert!(!st[0].is_head);
}

#[test]
fn unnamed_branch_fails_the_project() {
    let (graph, commit_ids) = graph(vec![vec![]]);
    let s = RepoState {
        graph,
        commit_ids,
        branches: vec![LocalBranch {
            name: None,
            tip: 0,
            upstream: None,
            is_head: false,
        }],
        file_statuses: vec![],
    };
    assert!(s.is_well_formed());
    assert_eq!(project_status(&project(), &s), Err(Error::NoBranchNameFound));
}

#[test]
fn unordered_branches_are_not_well_formed() {
    let (graph, commit_ids) = graph(vec![vec![]]);
    let s = RepoState {
        graph,
        commit_ids,
        branches: vec![branch("master", 0, None), branch("feature", 0, None)],
        file_statuses: vec![],
    };
    assert!(!s.is_well_formed());
}

#[test]
fn status_stage_orders_branches_by_name() {
    let (graph, commit_ids) = graph(vec![vec![]]);
    let mut s = RepoState {
        graph,
        commit_ids,
        branches: vec![
            branch("zeta", 0, None),
            branch("master", 0, Some(("origin/master", 0))),
            branch("alpha", 0, None),
        ],
        file_statuses: vec![],
    };
    assert!(s.is_consistent());
    assert!(!s.is_well_formed());
    let st = status_command().run_project(&project(), &mut s).unwrap();
    let names: Vec<&str> = st.iter().map(|b| b.name.as_str()).collect();
    assert_eq!(names, vec!["alpha", "master", "zeta"]);
    assert!(s.is_well_formed());
    assert_eq!(st[1].in_sync, Some(true));
}

#[test]
fn duplicate_names_or_shared_tip_ids_are_inconsistent() {
    let (one, commit_ids) = graph(vec![vec![]]);
    let s = RepoState {
        graph: one,
        commit_ids,
        branches: vec![branch("a", 0, None), branch("a", 0, None)],
        file_statuses: vec![],
    };
    assert!(!s.is_consistent());
    let (two, _) = graph(vec![vec![], vec![0]]);
    let s = RepoState {
        graph: two,
        commit_ids: vec!["same".to_string(), "same".to_string()],
        branches: vec![branch("a", 0, Some(("origin/a", 1)))],
        file_statuses: vec![],
    };
    assert!(!s.is_consistent());
}

#[test]
fn dirtiness_classification() {
    assert_eq!(dirty_state(&vec![]), DirtyState::Clean);
    assert_eq!(dirty_state(&vec![0, 16384]), DirtyState::Clean);
    assert_eq!(dirty_state(&vec![128]), DirtyState::UntrackedFiles);
    assert_eq!(dirty_state(&vec![128, 2]), DirtyState::UncommittedChanges);
    assert_eq!(dirty_state(&vec![128, 128]), DirtyState::UntrackedFiles);
    assert_eq!(dirty_state(&vec![128 | 16384]), DirtyState::UncommittedChanges);
    // A staged deletion kept on disk: INDEX_DELETED | WT_NEW.
    assert_eq!(dirty_state(&vec![132]), DirtyState::UncommittedChanges);
}

#[test]
fn selection_filter_and_exit_code() {
    assert!(is_selected(&vec![], &project()));
    assert!(is_selected(&vec!["repo".to_string()], &project()));
    assert!(!is_selected(&vec!["other".to_string()], &project()));

    assert_eq!(exit_code(&vec![Ok(vec![]), Err(Error::RepositoryMissing)]), 0);
    assert_eq!(
        exit_code(&vec![Err(Error::NativeVcsError("boom".to_string())), Ok(vec![])]),
        2
    );
    assert_eq!(exit_code(&vec![Err(Error::NoBranchNameFound)]), 2);
}

#[test]
fn only_changes_hides_clean_projects() {
    let clean = || vec![record("master", Some("origin/master"), DirtyState::Clean, true, Some(true))];
    let behind = vec![record("master", Some("origin/master"), DirtyState::Clean, true, Some(false))];
    let no_upstream = vec![record("master", None, DirtyState::Clean, true, None)];
    assert!(keep_in_report(false, &Ok(clean())));
    assert!(!keep_in_report(true, &Ok(clean())));
    assert!(keep_in_report(true, &Ok(behind)));
    assert!(keep_in_report(true, &Ok(no_upstream)));
    assert!(!keep_in_report(true, &Err(Error::RepositoryMissing)));
}

#[test]
fn message_line_is_indented() {
    assert_eq!(format_message_line("Missing repository"), format!("{}Missing repository", " ".repeat(30)));
}

#[test]
fn credentials_are_tried_once_each() {
    let mut c = CredentialAttempts::new();
    assert_eq!(c.next_credential(true, true), CredentialChoice::SshAgent);
    assert_eq!(c.next_credential(true, true), CredentialChoice::CredentialHelper);
    assert_eq!(c.next_credential(true, true), CredentialChoice::Default);
    let mut d = CredentialAttempts::new();
    assert_eq!(d.next_credential(false, true), CredentialChoice::CredentialHelper);
    assert_eq!(d.next_credential(true, false), CredentialChoice::SshAgent);
    assert_eq!(d.next_credential(true, true), CredentialChoice::Default);
}

#[test]
fn reflog_message_names_tool_branch_and_upstream() {
    assert_eq!(reflog_message("gws", "dev", "origin/dev"), "gws: Fast-forward dev to upstream origin/dev");
}

#[test]
fn error_descriptions() {
    assert_eq!(Error::NoBranchNameFound.describe(), "No branch name found");
    assert_eq!(Error::RepositoryMissing.describe(), "Repository missing");
    assert_eq!(Error::NativeVcsError("x".to_string()).describe(), "x");
}
