use vstd::prelude::*;

use crate::config::Project;
use crate::error::Error;
use crate::status::BranchStatus;
use crate::status::RepoState;
use crate::status::RepositoryStatus;

verus! {

/// The tips of the upstream refs that local branches follow: pairs of an
/// upstream name and the id of its tip commit.
pub type UpstreamHeads = Vec<(String, String)>;

pub open spec fn heads_view(h: Seq<(String, String)>) -> Seq<(Seq<char>, Seq<char>)> {
    h.map_values(|p: (String, String)| (p.0@, p.1@))
}

/// The tip id recorded for upstream `name`, if any.
pub open spec fn lookup(heads: Seq<(Seq<char>, Seq<char>)>, name: Seq<char>) -> Option<Seq<char>>
    decreases heads.len(),
{
    if heads.len() == 0 {
        None
    } else if heads[0].0 == name {
        Some(heads[0].1)
    } else {
        lookup(heads.drop_first(), name)
    }
}

/// The upstream ref `name` is in the symmetric difference of the heads
/// before and after a fetch: it appeared, disappeared, or moved.
pub open spec fn ref_updated(
    before: Seq<(Seq<char>, Seq<char>)>,
    after: Seq<(Seq<char>, Seq<char>)>,
    name: Seq<char>,
) -> bool {
    lookup(before, name) != lookup(after, name)
}

/// Whether the fetch brought new commits to the upstream of a branch.
pub open spec fn upstream_was_fetched(
    before: Seq<(Seq<char>, Seq<char>)>,
    after: Seq<(Seq<char>, Seq<char>)>,
    upstream_name: Option<String>,
) -> bool {
    match upstream_name {
        Some(n) => ref_updated(before, after, n@),
        None => false,
    }
}

/// The heads of the upstreams of `branches`, in branch order.
pub open spec fn heads_model(
    branches: Seq<crate::status::LocalBranch>,
    ids: Seq<String>,
) -> Seq<(Seq<char>, Seq<char>)>
    decreases branches.len(),
{
    if branches.len() == 0 {
        Seq::empty()
    } else {
        let rest = heads_model(branches.drop_last(), ids);
        match branches.last().upstream {
            Some(u) => rest.push((u.name@, ids[u.tip as int]@)),
            None => rest,
        }
    }
}

fn find_head<'a>(heads: &'a UpstreamHeads, name: &String) -> (r: Option<&'a String>)
    ensures
        match r {
            Some(id) => lookup(heads_view(heads@), name@) == Some(id@),
            None => lookup(heads_view(heads@), name@) is None,
        },
{
    let mut i: usize = 0;
    assert(heads_view(heads@).skip(0) =~= heads_view(heads@));
    while i < heads.len()
        invariant
            i <= heads@.len(),
            lookup(heads_view(heads@), name@) == lookup(heads_view(heads@).skip(i as int), name@),
        decreases heads@.len() - i,
    {
        assert(heads_view(heads@).skip(i as int).drop_first() =~= heads_view(heads@).skip(i as int + 1));
        if heads[i].0 == *name {
            return Some(&heads[i].1);
        }
        i = i + 1;
    }
    None
}

/// Whether upstream `name` differs between the two sets of heads.
pub fn is_ref_updated(before: &UpstreamHeads, after: &UpstreamHeads, name: &String) -> (r: bool)
    ensures
        r == ref_updated(heads_view(before@), heads_view(after@), name@),
{
    match (find_head(before, name), find_head(after, name)) {
        (Some(a), Some(b)) => !(*a == *b),
        (None, None) => false,
        _ => true,
    }
}

impl Project {
    /// The current tip of the upstream of every local branch that has one,
    /// or `NoBranchNameFound` when such a branch has no valid name.
    pub fn current_upstream_heads(&self, state: &RepoState) -> (r: Result<UpstreamHeads, Error>)
        requires
            state.wf(),
        ensures
            match r {
                Ok(h) => {
                    &&& heads_view(h@) == heads_model(state.branches@, state.commit_ids@)
                    &&& forall|i: int|
                        0 <= i < state.branches@.len() && (#[trigger] state.branches@[i]).upstream is Some
                            ==> state.branches@[i].name is Some
                },
                Err(e) => {
                    &&& e == Error::NoBranchNameFound
                    &&& exists|i: int|
                        0 <= i < state.branches@.len() && (#[trigger] state.branches@[i]).upstream is Some
                            && state.branches@[i].name is None
                },
            },
    {
        let mut heads: UpstreamHeads = Vec::new();
        let mut i: usize = 0;
        assert(state.branches@.subrange(0, 0) =~= Seq::<crate::status::LocalBranch>::empty());
        while i < state.branches.len()
            invariant
                state.wf(),
                i <= state.branches@.len(),
                heads_view(heads@) == heads_model(state.branches@.subrange(0, i as int), state.commit_ids@),
                forall|k: int|
                    0 <= k < i && (#[trigger] state.branches@[k]).upstream is Some
                        ==> state.branches@[k].name is Some,
            decreases state.branches@.len() - i,
        {
            let b = &state.branches[i];
            assert(b == state.branches@[i as int]);
            assert(state.branches@.subrange(0, i as int + 1).drop_last() =~= state.branches@.subrange(0, i as int));
            match &b.upstream {
                Some(u) => {
                    if b.name.is_none() {
                        return Err(Error::NoBranchNameFound);
                    }
                    let ghost before = heads@;
                    heads.push((u.name.clone(), state.commit_ids[u.tip].clone()));
                    assert(heads_view(heads@) =~= heads_view(before).push((u.name@, state.commit_ids@[u.tip as int]@)));
                },
                None => {},
            }
            i = i + 1;
        }
        assert(state.branches@.subrange(0, i as int) =~= state.branches@);
        Ok(heads)
    }
}

/// `s` with its fetch flag set to `flag`.
pub open spec fn with_fetch_flag(s: BranchStatus, flag: bool) -> BranchStatus {
    BranchStatus { upstream_fetched: flag, ..s }
}

/// `result` is `status` with the fetch flag of every branch set from the
/// upstream heads before and after the fetch, and nothing else changed.
pub open spec fn fetch_augmented(
    status: Seq<BranchStatus>,
    before: Seq<(Seq<char>, Seq<char>)>,
    after: Seq<(Seq<char>, Seq<char>)>,
    result: Seq<BranchStatus>,
) -> bool {
    &&& result.len() == status.len()
    &&& forall|i: int|
        #![trigger result[i]]
        0 <= i < status.len() ==> result[i] == with_fetch_flag(
            status[i],
            upstream_was_fetched(before, after, status[i].upstream_name),
        )
}

/// The fetch stage: marks each branch whose upstream ref changed between
/// `before` and `after`, and clears the mark on all others.
pub fn augment_project_status_report(
    status: RepositoryStatus,
    before: &UpstreamHeads,
    after: &UpstreamHeads,
) -> (r: RepositoryStatus)
    ensures
        fetch_augmented(status@, heads_view(before@), heads_view(after@), r@),
{
    let ghost all = status@;
    let mut rest = status;
    let mut out: RepositoryStatus = Vec::new();
    while rest.len() > 0
        invariant
            rest@.len() <= all.len(),
            rest@ == all.skip(all.len() - rest@.len()),
            out@.len() == all.len() - rest@.len(),
            forall|i: int|
                #![trigger out@[i]]
                0 <= i < out@.len() ==> out@[i] == with_fetch_flag(
                    all[i],
                    upstream_was_fetched(heads_view(before@), heads_view(after@), all[i].upstream_name),
                ),
        decreases rest@.len(),
    {
        let ghost done = all.len() - rest@.len();
        let mut b = rest.remove(0);
        assert(b == all[done]);
        assert(rest@ =~= all.skip(all.len() - rest@.len()));
        let fetched = match &b.upstream_name {
            Some(n) => is_ref_updated(before, after, n),
            None => false,
        };
        b.upstream_fetched = fetched;
        out.push(b);
    }
    out
}

/// A fetch that brings no new commits marks no branch and changes nothing
/// else in the status.
pub proof fn lemma_fetch_without_news(
    status: Seq<BranchStatus>,
    heads: Seq<(Seq<char>, Seq<char>)>,
    result: Seq<BranchStatus>,
)
    requires
        fetch_augmented(status, heads, heads, result),
    ensures
        forall|i: int| 0 <= i < result.len() ==> !(#[trigger] result[i]).upstream_fetched,
        forall|i: int|
            0 <= i < result.len() ==> (#[trigger] result[i]) == with_fetch_flag(status[i], false),
{
    assert forall|i: int| 0 <= i < result.len() implies (#[trigger] result[i]) == with_fetch_flag(
        status[i],
        false,
    ) by {
        assert(!upstream_was_fetched(heads, heads, status[i].upstream_name));
    }
}

} // verus!
