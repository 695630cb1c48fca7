use vstd::prelude::*;
use vstd::string::StringExecFns;

use crate::config::Project;
use crate::config::Workspace;
use crate::error::Error;
use crate::fetch::augment_project_status_report;
use crate::fetch::heads_model;
use crate::fetch::heads_view;
use crate::fetch::upstream_was_fetched;
use crate::fetch::with_fetch_flag;
use crate::ff::aligned;
use crate::ff::do_ff;
use crate::ff::ff_outcome;
use crate::ff::RefUpdate;
use crate::status::describes_branch;
use crate::status::project_status;
use crate::status::BranchStatus;
use crate::status::RepoState;
use crate::status::RepositoryStatus;

verus! {

pub const OK: i32 = 0;

pub const UNKNOWN_ERROR: i32 = 1;

pub const INTERNAL_ERROR: i32 = 2;

pub const USER_ERROR: i32 = 3;

/// Whether `names` holds `name`.
pub fn contains_name(names: &Vec<String>, name: &String) -> (r: bool)
    ensures
        r == exists|i: int| 0 <= i < names@.len() && (#[trigger] names@[i])@ == name@,
{
    let mut i: usize = 0;
    while i < names.len()
        invariant
            i <= names@.len(),
            forall|k: int| 0 <= k < i ==> (#[trigger] names@[k])@ != name@,
        decreases names@.len() - i,
    {
        if names[i] == *name {
            return true;
        }
        i = i + 1;
    }
    false
}

/// A project is processed when no projects were named, or when it was named.
pub open spec fn selects(args: Seq<String>, path: Seq<char>) -> bool {
    args.len() == 0 || exists|i: int| 0 <= i < args.len() && (#[trigger] args[i])@ == path
}

pub fn is_selected(project_args: &Vec<String>, project: &Project) -> (r: bool)
    ensures
        r == selects(project_args@, project.path@),
{
    project_args.len() == 0 || contains_name(project_args, &project.path)
}

/// A project's outcome is shown unless only changes are asked for and it
/// has none: with `only_changes`, a project is shown when one of its
/// branches is not clean, or when none of its branches has an upstream;
/// projects whose status could not be computed are not shown.
pub open spec fn shows(only_changes: bool, result: Result<RepositoryStatus, Error>) -> bool {
    !only_changes || match result {
        Ok(st) => (exists|i: int| 0 <= i < st@.len() && !(#[trigger] st@[i]).spec_is_clean()) || (forall|
            i: int,
        | 0 <= i < st@.len() ==> (#[trigger] st@[i]).upstream_name is None),
        Err(_) => false,
    }
}

pub fn keep_in_report(only_changes: bool, result: &Result<RepositoryStatus, Error>) -> (r: bool)
    ensures
        r == shows(only_changes, *result),
{
    if !only_changes {
        return true;
    }
    match result {
        Ok(st) => {
            let mut any_unclean = false;
            let mut all_without_upstream = true;
            let mut i: usize = 0;
            while i < st.len()
                invariant
                    i <= st@.len(),
                    any_unclean == exists|k: int| 0 <= k < i && !(#[trigger] st@[k]).spec_is_clean(),
                    all_without_upstream == forall|k: int| 0 <= k < i ==> (#[trigger] st@[k]).upstream_name is None,
                decreases st@.len() - i,
            {
                if !st[i].is_clean() {
                    any_unclean = true;
                }
                if st[i].upstream_name.is_some() {
                    all_without_upstream = false;
                }
                i = i + 1;
            }
            any_unclean || all_without_upstream
        },
        Err(_) => false,
    }
}

/// The exit code that one project's outcome calls for: a missing
/// repository is no failure.
pub open spec fn outcome_code(result: Result<RepositoryStatus, Error>) -> i32 {
    match result {
        Ok(_) => OK,
        Err(Error::RepositoryMissing) => OK,
        Err(_) => INTERNAL_ERROR,
    }
}

/// The exit code of a whole run: the failure code if any project failed.
pub open spec fn run_code(results: Seq<Result<RepositoryStatus, Error>>) -> i32 {
    if exists|i: int| 0 <= i < results.len() && outcome_code(#[trigger] results[i]) != OK {
        INTERNAL_ERROR
    } else {
        OK
    }
}

pub fn exit_code(results: &Vec<Result<RepositoryStatus, Error>>) -> (r: i32)
    ensures
        r == run_code(results@),
{
    let mut code: i32 = OK;
    let mut i: usize = 0;
    while i < results.len()
        invariant
            i <= results@.len(),
            code == if exists|k: int| 0 <= k < i && outcome_code(#[trigger] results@[k]) != OK {
                INTERNAL_ERROR
            } else {
                OK
            },
        decreases results@.len() - i,
    {
        let next = match &results[i] {
            Ok(_) => OK,
            Err(Error::RepositoryMissing) => OK,
            Err(_) => INTERNAL_ERROR,
        };
        assert(next == outcome_code(results@[i as int]));
        if next != OK {
            code = next;
        }
        i = i + 1;
    }
    code
}

/// `message` indented to the column where branch descriptions start.
pub fn format_message_line(message: &str) -> (r: String)
    ensures
        r@ == Seq::new(30, |i: int| ' ') + message@,
{
    let mut line = "                              ".to_owned();
    proof {
        reveal_strlit("                              ");
    }
    assert(line@ =~= Seq::new(30, |i: int| ' '));
    line.append(message);
    line
}

/// Which credentials to offer on an authentication request.
#[derive(Clone, Copy, Debug, PartialEq, Eq, Structural)]
pub enum CredentialChoice {
    /// A key held by the SSH agent.
    SshAgent,
    /// What the configured credential helper gives.
    CredentialHelper,
    /// No credentials.
    Default,
}

/// The credential kinds already tried during one fetch.
#[derive(Clone, Copy, Debug, PartialEq, Eq, Structural)]
pub struct CredentialAttempts {
    pub tried_ssh: bool,
    pub tried_password: bool,
}

impl CredentialAttempts {
    pub fn new() -> (r: CredentialAttempts)
        ensures
            !r.tried_ssh && !r.tried_password,
    {
        CredentialAttempts { tried_ssh: false, tried_password: false }
    }

    /// Chooses the credentials for a request that allows an SSH key and/or a
    /// user name with password: the SSH agent first, then the credential
    /// helper, each at most once, then none.
    pub fn next_credential(&mut self, ssh_allowed: bool, password_allowed: bool) -> (r:
        CredentialChoice)
        ensures
            r == if ssh_allowed && !old(self).tried_ssh {
                CredentialChoice::SshAgent
            } else if password_allowed && !old(self).tried_password {
                CredentialChoice::CredentialHelper
            } else {
                CredentialChoice::Default
            },
            final(self).tried_ssh == (old(self).tried_ssh || r == CredentialChoice::SshAgent),
            final(self).tried_password == (old(self).tried_password || r
                == CredentialChoice::CredentialHelper),
    {
        if ssh_allowed && !self.tried_ssh {
            self.tried_ssh = true;
            CredentialChoice::SshAgent
        } else if password_allowed && !self.tried_password {
            self.tried_password = true;
            CredentialChoice::CredentialHelper
        } else {
            CredentialChoice::Default
        }
    }
}

/// The status command: reports the branches of each selected project.
pub struct Status {
    pub only_changes: bool,
    pub projects: Vec<String>,
}

/// The fetch command: the status, then a fetch from every remote.
pub struct Fetch {
    pub status_command: Status,
}

/// The fast-forward command: the fetch, then moving branches to their upstreams.
pub struct FastForward {
    pub fetch_command: Fetch,
}

/// The outcome of the fetch stage, given the repository before and after
/// the fetch.
pub open spec fn fetch_outcome(before: RepoState, after: RepoState, r: Result<RepositoryStatus, Error>) -> bool {
    match r {
        Ok(st) => {
            &&& st@.len() == before.branches@.len()
            &&& forall|i: int|
                #![trigger st@[i]]
                0 <= i < st@.len() ==> {
                    &&& describes_branch(before, i, with_fetch_flag(st@[i], false))
                    &&& st@[i].upstream_fetched == upstream_was_fetched(
                        heads_model(before.branches@, before.commit_ids@),
                        heads_model(after.branches@, after.commit_ids@),
                        st@[i].upstream_name,
                    )
                }
        },
        Err(e) => {
            &&& e == Error::NoBranchNameFound
            &&& ((exists|i: int|
                0 <= i < before.branches@.len() && (#[trigger] before.branches@[i]).name is None)
                || (exists|i: int|
                0 <= i < after.branches@.len() && (#[trigger] after.branches@[i]).upstream is Some
                    && after.branches@[i].name is None))
        },
    }
}

impl Status {
    pub fn only_changes(&self) -> (r: bool)
        ensures
            r == self.only_changes,
    {
        self.only_changes
    }

    pub fn project_args(&self) -> (r: &Vec<String>)
        ensures
            r == &self.projects,
    {
        &self.projects
    }

    /// The status of one project.
    /// The status of one project. The branches of `state` are put in order
    /// of their names first, so the records come in that order.
    pub fn run_project(&self, project: &Project, state: &mut RepoState) -> (r: Result<
        RepositoryStatus,
        Error,
    >)
        requires
            old(state).wf_unordered(),
        ensures
            final(state).wf(),
            final(state).branches@.to_multiset() == old(state).branches@.to_multiset(),
            final(state).commit_ids == old(state).commit_ids,
            crate::status::status_outcome(*final(state), r),
    {
        state.order_branches();
        project_status(project, state)
    }
}

impl Fetch {
    pub fn only_changes(&self) -> (r: bool)
        ensures
            r == self.status_command.only_changes,
    {
        self.status_command.only_changes()
    }

    pub fn project_args(&self) -> (r: &Vec<String>)
        ensures
            r == &self.status_command.projects,
    {
        self.status_command.project_args()
    }

    /// The status of one project as it was before the fetch, with each
    /// branch whose upstream the fetch moved marked.
    /// The branches of both states are put in order of their names first.
    pub fn run_project(&self, project: &Project, before: &mut RepoState, after: &mut RepoState) -> (r: Result<
        RepositoryStatus,
        Error,
    >)
        requires
            old(before).wf_unordered(),
            old(after).wf_unordered(),
        ensures
            final(before).wf(),
            final(after).wf(),
            final(before).branches@.to_multiset() == old(before).branches@.to_multiset(),
            final(after).branches@.to_multiset() == old(after).branches@.to_multiset(),
            fetch_outcome(*final(before), *final(after), r),
    {
        after.order_branches();
        let status = match self.status_command.run_project(project, before) {
            Ok(st) => st,
            Err(e) => {
                return Err(e);
            },
        };
        let heads_before = match project.current_upstream_heads(&*before) {
            Ok(h) => h,
            Err(e) => {
                return Err(e);
            },
        };
        let heads_after = match project.current_upstream_heads(&*after) {
            Ok(h) => h,
            Err(e) => {
                return Err(e);
            },
        };
        let ghost st0 = status@;
        let result = augment_project_status_report(status, &heads_before, &heads_after);
        proof {
            assert forall|i: int| 0 <= i < result@.len() implies describes_branch(
                *before,
                i,
                with_fetch_flag(#[trigger] result@[i], false),
            ) by {
                assert(describes_branch(*before, i, st0[i]));
                assert(with_fetch_flag(result@[i], false) == st0[i]);
            }
        }
        Ok(result)
    }
}

impl FastForward {
    pub fn only_changes(&self) -> (r: bool)
        ensures
            r == self.fetch_command.status_command.only_changes,
    {
        self.fetch_command.only_changes()
    }

    pub fn project_args(&self) -> (r: &Vec<String>)
        ensures
            r == &self.fetch_command.status_command.projects,
    {
        self.fetch_command.project_args()
    }

    /// Moves the branches of the fetched status to their upstreams where
    /// that is a fast-forward; `after` is the repository after the fetch.
    pub fn run_project(&self, status: RepositoryStatus, after: &RepoState, prog_name: &str) -> (r: (
        RepositoryStatus,
        Vec<Option<RefUpdate>>,
    ))
        requires
            after.wf(),
            aligned(*after, status@),
        ensures
            r.0@.len() == status@.len(),
            r.1@.len() == status@.len(),
            forall|i: int|
                #![trigger r.0@[i]]
                0 <= i < status@.len() ==> ff_outcome(*after, prog_name@, status@[i], i, r.0@[i], r.1@[i]),
    {
        do_ff(after, status, prog_name)
    }
}

/// The clone command: clones the named projects that are not present yet.
pub struct Clone {
    pub projects: Vec<String>,
}

/// The update command: clones every project of the workspace that is not
/// present yet.
pub struct Update {}

/// The check command: compares the repositories on disk with the workspace.
pub struct Check {}

impl Clone {
    /// Whether `project` is one of the projects to clone.
    pub fn selects_project(&self, project: &Project) -> (r: bool)
        ensures
            r == exists|i: int| 0 <= i < self.projects@.len() && (#[trigger] self.projects@[i])@ == project.path@,
    {
        contains_name(&self.projects, &project.path)
    }

    /// The exit code of a clone run.
    pub fn exit_code(clone_failed: bool, add_remote_failed: bool) -> (r: i32)
        ensures
            r == if clone_failed || add_remote_failed {
                INTERNAL_ERROR
            } else {
                OK
            },
    {
        if clone_failed || add_remote_failed {
            INTERNAL_ERROR
        } else {
            OK
        }
    }
}

impl Update {
    /// The clone command for every project of the workspace.
    pub fn clone_command(&self, workspace: &Workspace) -> (r: Clone)
        ensures
            r.projects@.len() == workspace.projects@.len(),
            forall|i: int| 0 <= i < r.projects@.len() ==> (#[trigger] r.projects@[i])@ == workspace.projects@[i].path@,
    {
        let mut projects: Vec<String> = Vec::new();
        let mut i: usize = 0;
        while i < workspace.projects.len()
            invariant
                i <= workspace.projects@.len(),
                projects@.len() == i,
                forall|k: int| 0 <= k < i ==> (#[trigger] projects@[k])@ == workspace.projects@[k].path@,
            decreases workspace.projects@.len() - i,
        {
            projects.push(workspace.projects[i].path.clone());
            i = i + 1;
        }
        Clone { projects }
    }
}

} // verus!
