use vstd::prelude::*;
use vstd::string::StringExecFns;

use crate::graph::is_strict_ancestor;
use crate::graph::met_before_older;
use crate::status::opt_view;
use crate::status::upstream_name_of;
use crate::status::BranchStatus;
use crate::status::DirtyState;
use crate::status::RepoState;
use crate::status::RepositoryStatus;

verus! {

/// A move of a local branch to a new tip, for the caller to carry out.
pub struct RefUpdate {
    /// The branch to move.
    pub branch: String,
    /// Object id of the new tip.
    pub target: String,
    /// The reflog entry to write with the move.
    pub message: String,
    /// The branch is checked out, so the working tree follows it.
    pub checkout: bool,
}

/// The status records belong, in order, to the branches of the state.
pub open spec fn aligned(state: RepoState, status: Seq<BranchStatus>) -> bool {
    &&& status.len() == state.branches@.len()
    &&& forall|i: int|
        #![trigger status[i]]
        0 <= i < status.len() ==> {
            &&& (state.branches@[i].name matches Some(n) && n@ == status[i].name@)
            &&& opt_view(status[i].upstream_name) == upstream_name_of(state.branches@[i])
        }
}

/// Whether each status record belongs, in order, to the branches of the state.
pub fn is_aligned(state: &RepoState, status: &RepositoryStatus) -> (r: bool)
    ensures
        r == aligned(*state, status@),
{
    if status.len() != state.branches.len() {
        return false;
    }
    let mut i: usize = 0;
    while i < status.len()
        invariant
            status@.len() == state.branches@.len(),
            i <= status@.len(),
            forall|k: int|
                #![trigger status@[k]]
                0 <= k < i ==> {
                    &&& (state.branches@[k].name matches Some(n) && n@ == status@[k].name@)
                    &&& opt_view(status@[k].upstream_name) == upstream_name_of(state.branches@[k])
                },
        decreases status@.len() - i,
    {
        let b = &state.branches[i];
        let s = &status[i];
        let names_match = match &b.name {
            Some(n) => *n == s.name,
            None => false,
        };
        let upstreams_match = match (&b.upstream, &s.upstream_name) {
            (Some(u), Some(n)) => u.name == *n,
            (None, None) => true,
            _ => false,
        };
        if !names_match || !upstreams_match {
            assert(!aligned(*state, status@)) by {
                assert(status@[i as int] == *s);
            }
            return false;
        }
        i = i + 1;
    }
    true
}

/// The branch may be moved to its upstream, unless the histories say
/// otherwise: nothing is checked out dirty on it, it has an upstream, and
/// the two are at different commits.
pub open spec fn ff_candidate(state: RepoState, s: BranchStatus, i: int) -> bool {
    let b = state.branches@[i];
    &&& s.dirty == DirtyState::Clean
    &&& b.upstream is Some
    &&& state.commit_ids@[b.tip as int]@ != state.commit_ids@[b.upstream->0.tip as int]@
}

/// The reflog entry for moving `branch` to `upstream`.
pub open spec fn reflog_text(prog: Seq<char>, branch: Seq<char>, upstream: Seq<char>) -> Seq<char> {
    prog + ": Fast-forward "@ + branch + " to upstream "@ + upstream
}

pub fn reflog_message(prog: &str, branch: &str, upstream: &str) -> (r: String)
    ensures
        r@ == reflog_text(prog@, branch@, upstream@),
{
    let mut m = prog.to_owned();
    m.append(": Fast-forward ");
    m.append(branch);
    m.append(" to upstream ");
    m.append(upstream);
    m
}

/// `s` with its fast-forward flag set to `flag`.
pub open spec fn with_ff_flag(s: BranchStatus, flag: bool) -> BranchStatus {
    BranchStatus { fast_forwarded: flag, ..s }
}

/// The outcome of the fast-forward stage for branch `i`.
pub open spec fn ff_outcome(
    state: RepoState,
    prog: Seq<char>,
    s: BranchStatus,
    i: int,
    r: BranchStatus,
    u: Option<RefUpdate>,
) -> bool {
    let b = state.branches@[i];
    let up = b.upstream->0;
    &&& r == with_ff_flag(s, r.fast_forwarded)
    &&& (u is Some <==> r.fast_forwarded)
    &&& r.fast_forwarded ==> {
        &&& ff_candidate(state, s, i)
        &&& is_strict_ancestor(state.graph@, b.tip, up.tip)
        &&& u->0.branch@ == s.name@
        &&& u->0.target@ == state.commit_ids@[up.tip as int]@
        &&& u->0.checkout == s.is_head
        &&& u->0.message@ == reflog_text(prog, s.name@, up.name@)
    }
    &&& (ff_candidate(state, s, i) && exists|d: nat| met_before_older(state.graph@, up.tip, b.tip, d))
        ==> r.fast_forwarded
}

/// The fast-forward stage: each branch that is not checked out dirty and
/// whose tip is a strict ancestor of its upstream's tip is moved to the
/// upstream's tip. A move is certain when the history of the upstream meets
/// the branch tip before any older commit; where the two searches of the
/// ancestry check meet at a common ancestor first, the branch stays. The result holds the updated statuses and, for each
/// branch, the move to make, if any.
pub fn do_ff(state: &RepoState, status: RepositoryStatus, prog_name: &str) -> (r: (
    RepositoryStatus,
    Vec<Option<RefUpdate>>,
))
    requires
        state.wf(),
        aligned(*state, status@),
    ensures
        r.0@.len() == status@.len(),
        r.1@.len() == status@.len(),
        forall|i: int|
            #![trigger r.0@[i]]
            0 <= i < status@.len() ==> ff_outcome(*state, prog_name@, status@[i], i, r.0@[i], r.1@[i]),
{
    let ghost all = status@;
    let mut rest = status;
    let mut out: RepositoryStatus = Vec::new();
    let mut updates: Vec<Option<RefUpdate>> = Vec::new();
    let mut i: usize = 0;
    while rest.len() > 0
        invariant
            state.wf(),
            aligned(*state, all),
            rest@.len() <= all.len(),
            i == all.len() - rest@.len(),
            rest@ == all.skip(i as int),
            out@.len() == i,
            updates@.len() == i,
            forall|k: int|
                #![trigger out@[k]]
                0 <= k < i ==> ff_outcome(*state, prog_name@, all[k], k, out@[k], updates@[k]),
        decreases rest@.len(),
    {
        let mut s = rest.remove(0);
        assert(s == all[i as int]);
        assert(rest@ =~= all.skip(i as int + 1));
        let n = state.branches.len();
        let b = &state.branches[i];
        assert(b == state.branches@[i as int]);
        let ghost s0 = s;
        s.fast_forwarded = false;
        let mut update: Option<RefUpdate> = None;
        if s.dirty == DirtyState::Clean {
            match &b.upstream {
                Some(up) => {
                    if !(state.commit_ids[b.tip] == state.commit_ids[up.tip]) {
                        if state.graph.is_descendant_of(up.tip, b.tip) {
                            let message = reflog_message(prog_name, s.name.as_str(), up.name.as_str());
                            update = Some(
                                RefUpdate {
                                    branch: s.name.clone(),
                                    target: state.commit_ids[up.tip].clone(),
                                    message,
                                    checkout: s.is_head,
                                },
                            );
                            s.fast_forwarded = true;
                        }
                    }
                },
                None => {},
            }
        }
        proof {
            assert(s == with_ff_flag(s0, s.fast_forwarded));
            assert(ff_outcome(*state, prog_name@, all[i as int], i as int, s, update));
        }
        out.push(s);
        updates.push(update);
        assert(i < n);
        i = i + 1;
    }
    (out, updates)
}

/// A fast-forwarded branch is moved to the tip of the upstream that
/// triggered it, and only branches that are marked as fast-forwarded move.
pub proof fn lemma_ff_moves_to_upstream_tip(
    state: RepoState,
    prog: Seq<char>,
    s: BranchStatus,
    i: int,
    r: BranchStatus,
    u: Option<RefUpdate>,
)
    requires
        ff_outcome(state, prog, s, i, r, u),
    ensures
        u matches Some(upd) ==> r.fast_forwarded && upd.target@ == state.commit_ids@[state.branches@[i].upstream->0.tip as int]@,
        u is None ==> !r.fast_forwarded,
{
}

} // verus!
