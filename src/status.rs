use vstd::prelude::*;

use crate::config::Project;
use crate::error::Error;
use crate::graph::CommitGraph;
use crate::order::lemma_lt_irreflexive;
use crate::order::lemma_lt_total;
use crate::order::lemma_lt_transitive;
use crate::order::seq_lt;
use crate::order::str_lt;

verus! {

/// Status bits of one file, as the version-control library reports them.
/// A file whose status is exactly `STATUS_CURRENT` is unchanged.
pub const STATUS_CURRENT: u32 = 0;

/// The file is new in the working tree and not tracked, and nothing else.
pub const STATUS_WT_NEW: u32 = 128;

/// The file is ignored.
pub const STATUS_IGNORED: u32 = 16384;

/// Working-tree dirtiness of a repository, attributed to the checked-out branch.
#[derive(Clone, Copy, Debug, PartialEq, Eq, Structural)]
pub enum DirtyState {
    Clean,
    UncommittedChanges,
    UntrackedFiles,
}

/// The file counts towards dirtiness: its status is neither "current" nor
/// "ignored".
pub open spec fn file_is_dirty(status: u32) -> bool {
    status != STATUS_CURRENT && status != STATUS_IGNORED
}

/// The file is purely new and untracked: its status is exactly
/// `STATUS_WT_NEW`.
pub open spec fn file_is_untracked(status: u32) -> bool {
    status == STATUS_WT_NEW
}

/// The file counts towards dirtiness and is not purely new and untracked.
pub open spec fn file_is_modified(status: u32) -> bool {
    file_is_dirty(status) && !file_is_untracked(status)
}

/// The dirtiness of a working tree whose files have the given statuses.
pub open spec fn dirty_state_of(statuses: Seq<u32>) -> DirtyState {
    if exists|i: int| 0 <= i < statuses.len() && #[trigger] file_is_modified(statuses[i]) {
        DirtyState::UncommittedChanges
    } else if exists|i: int| 0 <= i < statuses.len() && #[trigger] file_is_dirty(statuses[i]) {
        DirtyState::UntrackedFiles
    } else {
        DirtyState::Clean
    }
}

pub fn is_dirty(status: u32) -> (r: bool)
    ensures
        r == file_is_dirty(status),
{
    status != STATUS_CURRENT && status != STATUS_IGNORED
}

pub fn is_untracked(status: u32) -> (r: bool)
    ensures
        r == file_is_untracked(status),
{
    status == STATUS_WT_NEW
}

pub fn is_modified(status: u32) -> (r: bool)
    ensures
        r == file_is_modified(status),
{
    is_dirty(status) && !is_untracked(status)
}

/// Classifies a working tree by the statuses of its files.
pub fn dirty_state(statuses: &Vec<u32>) -> (r: DirtyState)
    ensures
        r == dirty_state_of(statuses@),
{
    let mut any_dirty = false;
    let mut any_modified = false;
    let mut i: usize = 0;
    while i < statuses.len()
        invariant
            i <= statuses@.len(),
            any_dirty == exists|k: int| 0 <= k < i && #[trigger] file_is_dirty(statuses@[k]),
            any_modified == exists|k: int| 0 <= k < i && #[trigger] file_is_modified(statuses@[k]),
        decreases statuses@.len() - i,
    {
        let s = statuses[i];
        if is_dirty(s) {
            any_dirty = true;
        }
        if is_modified(s) {
            any_modified = true;
        }
        i = i + 1;
    }
    if any_modified {
        DirtyState::UncommittedChanges
    } else if any_dirty {
        DirtyState::UntrackedFiles
    } else {
        DirtyState::Clean
    }
}

/// The upstream of a local branch: the remote-tracking branch it follows.
pub struct UpstreamBranch {
    pub name: String,
    /// Number of the upstream's tip commit in the repository's commit graph.
    pub tip: usize,
}

/// A local branch of a repository.
pub struct LocalBranch {
    /// The branch name without `refs/heads/`; `None` when it is not valid UTF-8.
    pub name: Option<String>,
    /// Number of the branch's tip commit in the repository's commit graph.
    pub tip: usize,
    /// The configured upstream, when there is one.
    pub upstream: Option<UpstreamBranch>,
    /// The branch is checked out.
    pub is_head: bool,
}

/// What the status engine reads of one repository.
pub struct RepoState {
    /// The history of the local branches and their upstreams.
    pub graph: CommitGraph,
    /// The object id of each commit of `graph`, by commit number.
    pub commit_ids: Vec<String>,
    /// The local branches; `order_branches` puts them in order of their names.
    pub branches: Vec<LocalBranch>,
    /// The status bits of every file of the working tree and index.
    pub file_statuses: Vec<u32>,
}

pub open spec fn opt_view(o: Option<String>) -> Option<Seq<char>> {
    match o {
        Some(s) => Some(s@),
        None => None,
    }
}

impl RepoState {
    pub open spec fn tips_known(&self) -> bool {
        forall|i: int|
            #![trigger self.branches@[i]]
            0 <= i < self.branches@.len() ==> {
                &&& self.branches@[i].tip < self.graph@.len()
                &&& (self.branches@[i].upstream matches Some(u) ==> u.tip < self.graph@.len())
            }
    }

    pub open spec fn names_ordered(&self) -> bool {
        forall|i: int, j: int|
            0 <= i < j < self.branches@.len() ==> match (
                #[trigger] self.branches@[i].name,
                #[trigger] self.branches@[j].name,
            ) {
                (Some(a), Some(b)) => seq_lt(a@, b@),
                _ => true,
            }
    }

    /// The tip of branch `b` (`upstream` false) or of its upstream.
    pub open spec fn tip_of(b: LocalBranch, upstream: bool) -> Option<usize> {
        if upstream {
            match b.upstream {
                Some(u) => Some(u.tip),
                None => None,
            }
        } else {
            Some(b.tip)
        }
    }

    /// Two tips of branches `i` and `j` have the same id only when they are
    /// the same commit.
    pub open spec fn tip_pair_distinct(&self, i: int, j: int) -> bool {
        forall|ui: bool, uj: bool|
            match (
                #[trigger] RepoState::tip_of(self.branches@[i], ui),
                #[trigger] RepoState::tip_of(self.branches@[j], uj),
            ) {
                (Some(x), Some(y)) => self.commit_ids@[x as int]@ == self.commit_ids@[y as int]@ ==> x == y,
                _ => true,
            }
    }

    /// Distinct tips of branches and upstreams have distinct ids.
    pub open spec fn tip_ids_distinct(&self) -> bool {
        forall|i: int, j: int|
            0 <= i < self.branches@.len() && 0 <= j < self.branches@.len() ==> #[trigger] self.tip_pair_distinct(i, j)
    }

    pub open spec fn wf(&self) -> bool {
        &&& self.graph.wf()
        &&& self.commit_ids@.len() == self.graph@.len()
        &&& self.tips_known()
        &&& self.names_ordered()
        &&& self.tip_ids_distinct()
    }

    fn same_commit_or_distinct_ids(&self, x: usize, y: usize) -> (r: bool)
        requires
            x < self.commit_ids@.len(),
            y < self.commit_ids@.len(),
        ensures
            r == (self.commit_ids@[x as int]@ == self.commit_ids@[y as int]@ ==> x == y),
    {
        x == y || !(self.commit_ids[x] == self.commit_ids[y])
    }

    fn tip_pair_ok(&self, i: usize, j: usize) -> (r: bool)
        requires
            i < self.branches@.len(),
            j < self.branches@.len(),
            self.commit_ids@.len() == self.graph@.len(),
            self.tips_known(),
        ensures
            r == self.tip_pair_distinct(i as int, j as int),
    {
        let a = &self.branches[i];
        let b = &self.branches[j];
        assert(*a == self.branches@[i as int] && *b == self.branches@[j as int]);
        let mut ok = self.same_commit_or_distinct_ids(a.tip, b.tip);
        match &a.upstream {
            Some(ua) => {
                ok = ok && self.same_commit_or_distinct_ids(ua.tip, b.tip);
            },
            None => {},
        }
        match &b.upstream {
            Some(ub) => {
                ok = ok && self.same_commit_or_distinct_ids(a.tip, ub.tip);
            },
            None => {},
        }
        match (&a.upstream, &b.upstream) {
            (Some(ua), Some(ub)) => {
                ok = ok && self.same_commit_or_distinct_ids(ua.tip, ub.tip);
            },
            _ => {},
        }
        proof {
            if !ok {
                assert(!self.tip_pair_distinct(i as int, j as int)) by {
                    if !(self.commit_ids@[a.tip as int]@ == self.commit_ids@[b.tip as int]@ ==> a.tip == b.tip) {
                        assert(RepoState::tip_of(*a, false) == Some(a.tip));
                        assert(RepoState::tip_of(*b, false) == Some(b.tip));
                    } else if a.upstream is Some && !(self.commit_ids@[a.upstream->0.tip as int]@
                        == self.commit_ids@[b.tip as int]@ ==> a.upstream->0.tip == b.tip) {
                        assert(RepoState::tip_of(*a, true) == Some(a.upstream->0.tip));
                        assert(RepoState::tip_of(*b, false) == Some(b.tip));
                    } else if b.upstream is Some && !(self.commit_ids@[a.tip as int]@
                        == self.commit_ids@[b.upstream->0.tip as int]@ ==> a.tip == b.upstream->0.tip) {
                        assert(RepoState::tip_of(*a, false) == Some(a.tip));
                        assert(RepoState::tip_of(*b, true) == Some(b.upstream->0.tip));
                    } else {
                        assert(RepoState::tip_of(*a, true) == Some(a.upstream->0.tip));
                        assert(RepoState::tip_of(*b, true) == Some(b.upstream->0.tip));
                    }
                }
            }
        }
        ok
    }

    fn tip_ids_are_distinct(&self) -> (r: bool)
        requires
            self.commit_ids@.len() == self.graph@.len(),
            self.tips_known(),
        ensures
            r == self.tip_ids_distinct(),
    {
        let n = self.branches.len();
        let mut i: usize = 0;
        while i < n
            invariant
                n == self.branches@.len(),
                i <= n,
                self.commit_ids@.len() == self.graph@.len(),
                self.tips_known(),
                forall|a: int, b: int| 0 <= a < i && 0 <= b < n ==> #[trigger] self.tip_pair_distinct(a, b),
            decreases n - i,
        {
            let mut j: usize = 0;
            while j < n
                invariant
                    n == self.branches@.len(),
                    i < n,
                    j <= n,
                    self.commit_ids@.len() == self.graph@.len(),
                    self.tips_known(),
                    forall|a: int, b: int| 0 <= a < i && 0 <= b < n ==> #[trigger] self.tip_pair_distinct(a, b),
                    forall|b: int| 0 <= b < j ==> #[trigger] self.tip_pair_distinct(i as int, b),
                decreases n - j,
            {
                if !self.tip_pair_ok(i, j) {
                    return false;
                }
                j = j + 1;
            }
            i = i + 1;
        }
        true
    }

    /// Whether the state is consistent: commit numbers refer to commits of
    /// the graph, branch names are ordered, and
    /// distinct tips have distinct ids.
    pub fn is_well_formed(&self) -> (r: bool)
        ensures
            r == self.wf(),
    {
        if !self.graph.is_well_formed() || self.commit_ids.len() != self.graph.len() {
            return false;
        }
        let n = self.graph.len();
        let mut i: usize = 0;
        while i < self.branches.len()
            invariant
                n == self.graph@.len(),
                i <= self.branches@.len(),
                forall|k: int|
                    #![trigger self.branches@[k]]
                    0 <= k < i ==> {
                        &&& self.branches@[k].tip < n
                        &&& (self.branches@[k].upstream matches Some(u) ==> u.tip < n)
                    },
                forall|k: int, j: int|
                    0 <= k < j < i ==> match (
                        #[trigger] self.branches@[k].name,
                        #[trigger] self.branches@[j].name,
                    ) {
                        (Some(a), Some(b)) => seq_lt(a@, b@),
                        _ => true,
                    },
            decreases self.branches@.len() - i,
        {
            let b = &self.branches[i];
            if b.tip >= n {
                return false;
            }
            match &b.upstream {
                Some(u) => {
                    if u.tip >= n {
                        return false;
                    }
                },
                None => {},
            }
            match &b.name {
                Some(bn) => {
                    let mut k: usize = 0;
                    while k < i
                        invariant
                            k <= i < self.branches@.len(),
                            b == self.branches@[i as int],
                            b.name == Some(*bn),
                            forall|kk: int|
                                0 <= kk < k ==> match #[trigger] self.branches@[kk].name {
                                    Some(a) => seq_lt(a@, bn@),
                                    None => true,
                                },
                        decreases i - k,
                    {
                        match &self.branches[k].name {
                            Some(an) => {
                                if !str_lt(an.as_str(), bn.as_str()) {
                                    assert(!self.names_ordered()) by {
                                        assert(match (
                                            self.branches@[k as int].name,
                                            self.branches@[i as int].name,
                                        ) {
                                            (Some(a), Some(b)) => !seq_lt(a@, b@),
                                            _ => false,
                                        });
                                    }
                                    return false;
                                }
                            },
                            None => {},
                        }
                        k = k + 1;
                    }
                },
                None => {},
            }
            i = i + 1;
        }
        assert(self.tips_known());
        self.tip_ids_are_distinct()
    }
}

/// Branch name `a` sorts before `b`: names that are not valid UTF-8 come
/// first, the others in string order.
pub open spec fn name_before(a: Option<String>, b: Option<String>) -> bool {
    match (a, b) {
        (None, Some(_)) => true,
        (Some(x), Some(y)) => seq_lt(x@, y@),
        _ => false,
    }
}

/// The branches are ordered by name, those without a valid name first.
pub open spec fn branches_ordered(bs: Seq<LocalBranch>) -> bool {
    forall|i: int, j: int|
        0 <= i < j < bs.len() ==> {
            &&& (#[trigger] bs[j].name is None ==> #[trigger] bs[i].name is None)
            &&& match (bs[i].name, bs[j].name) {
                (Some(a), Some(b)) => seq_lt(a@, b@),
                _ => true,
            }
        }
}

/// No two branches have the same valid name.
pub open spec fn names_distinct(bs: Seq<LocalBranch>) -> bool {
    forall|i: int, j: int|
        0 <= i < bs.len() && 0 <= j < bs.len() && i != j ==> match (#[trigger] bs[i].name, #[trigger] bs[j].name) {
            (Some(a), Some(b)) => a@ != b@,
            _ => true,
        }
}

fn sorts_before(a: &Option<String>, b: &String) -> (r: bool)
    ensures
        r == name_before(*a, Some(*b)),
{
    match a {
        None => true,
        Some(x) => str_lt(x.as_str(), b.as_str()),
    }
}

proof fn lemma_member_of_permutation(a: Seq<LocalBranch>, b: Seq<LocalBranch>, i: int)
    requires
        a.to_multiset() == b.to_multiset(),
        0 <= i < a.len(),
    ensures
        exists|j: int| 0 <= j < b.len() && b[j] == a[i],
{
    a.to_multiset_ensures();
    b.to_multiset_ensures();
    assert(a.contains(a[i]));
    assert(a.to_multiset().count(a[i]) > 0);
    assert(b.to_multiset().count(a[i]) > 0);
    assert(b.contains(a[i]));
}

proof fn lemma_insert_ordered(out: Seq<LocalBranch>, k: int, x: LocalBranch)
    requires
        branches_ordered(out),
        0 <= k <= out.len(),
        x.name is None ==> k == 0,
        forall|m: int| 0 <= m < k ==> name_before(#[trigger] out[m].name, x.name) || (out[m].name is None && x.name is None),
        x.name is Some ==> forall|m: int| k <= m < out.len() ==> name_before(x.name, #[trigger] out[m].name),
    ensures
        branches_ordered(out.insert(k, x)),
{
    out.insert_ensures(k, x);
    let new = out.insert(k, x);
    assert forall|i: int, j: int| 0 <= i < j < new.len() implies {
        &&& (#[trigger] new[j].name is None ==> #[trigger] new[i].name is None)
        &&& match (new[i].name, new[j].name) {
            (Some(a), Some(b)) => seq_lt(a@, b@),
            _ => true,
        }
    } by {
        let oi = if i < k { i } else { i - 1 };
        let oj = if j < k { j } else { j - 1 };
        if i < k {
            assert(new[i] == out[i]);
        } else if i > k {
            assert(new[i] == out[i - 1]);
        }
        if j < k {
            assert(new[j] == out[j]);
        } else if j > k {
            assert(new[j] == out[j - 1]);
        }
        if i != k && j != k {
            assert(out[oi].name is None || out[oj].name is Some);
        } else if i == k {
            if x.name is Some {
                assert(name_before(x.name, out[oj].name));
            }
        } else {
            assert(name_before(out[oi].name, x.name) || (out[oi].name is None && x.name is None));
        }
    }
}

impl RepoState {
    /// The state is consistent, whatever the order of its branches.
    pub open spec fn wf_unordered(&self) -> bool {
        &&& self.graph.wf()
        &&& self.commit_ids@.len() == self.graph@.len()
        &&& self.tips_known()
        &&& self.tip_ids_distinct()
        &&& names_distinct(self.branches@)
    }

    fn tips_are_known(&self) -> (r: bool)
        ensures
            r == self.tips_known(),
    {
        let n = self.graph.len();
        let mut i: usize = 0;
        while i < self.branches.len()
            invariant
                n == self.graph@.len(),
                i <= self.branches@.len(),
                forall|k: int|
                    #![trigger self.branches@[k]]
                    0 <= k < i ==> {
                        &&& self.branches@[k].tip < n
                        &&& (self.branches@[k].upstream matches Some(u) ==> u.tip < n)
                    },
            decreases self.branches@.len() - i,
        {
            let b = &self.branches[i];
            if b.tip >= n {
                return false;
            }
            match &b.upstream {
                Some(u) => {
                    if u.tip >= n {
                        return false;
                    }
                },
                None => {},
            }
            i = i + 1;
        }
        true
    }

    fn names_are_distinct(&self) -> (r: bool)
        ensures
            r == names_distinct(self.branches@),
    {
        let n = self.branches.len();
        let mut i: usize = 0;
        while i < n
            invariant
                n == self.branches@.len(),
                i <= n,
                forall|a: int, b: int|
                    0 <= a < i && 0 <= b < n && a != b ==> match (#[trigger] self.branches@[a].name, #[trigger] self.branches@[b].name) {
                        (Some(x), Some(y)) => x@ != y@,
                        _ => true,
                    },
            decreases n - i,
        {
            let mut j: usize = 0;
            while j < n
                invariant
                    n == self.branches@.len(),
                    i < n,
                    j <= n,
                    forall|a: int, b: int|
                        0 <= a < i && 0 <= b < n && a != b ==> match (#[trigger] self.branches@[a].name, #[trigger] self.branches@[b].name) {
                            (Some(x), Some(y)) => x@ != y@,
                            _ => true,
                        },
                    forall|b: int|
                        0 <= b < j && b != i ==> match (self.branches@[i as int].name, #[trigger] self.branches@[b].name) {
                            (Some(x), Some(y)) => x@ != y@,
                            _ => true,
                        },
                decreases n - j,
            {
                if i != j {
                    match (&self.branches[i].name, &self.branches[j].name) {
                        (Some(x), Some(y)) => {
                            if *x == *y {
                                assert(!names_distinct(self.branches@)) by {
                                    assert(match (self.branches@[i as int].name, self.branches@[j as int].name) {
                                        (Some(x), Some(y)) => x@ == y@,
                                        _ => false,
                                    });
                                }
                                return false;
                            }
                        },
                        _ => {},
                    }
                }
                j = j + 1;
            }
            i = i + 1;
        }
        true
    }

    /// Whether the state is consistent, whatever the order of its branches:
    /// commit numbers refer to commits of the graph, distinct tips have
    /// distinct ids, and no two branches share a name.
    pub fn is_consistent(&self) -> (r: bool)
        ensures
            r == self.wf_unordered(),
    {
        self.graph.is_well_formed() && self.commit_ids.len() == self.graph.len() && self.tips_are_known()
            && self.tip_ids_are_distinct() && self.names_are_distinct()
    }

    /// Puts the branches in order of their names, those without a valid
    /// name first.
    pub fn order_branches(&mut self)
        requires
            old(self).wf_unordered(),
        ensures
            final(self).wf(),
            final(self).branches@.to_multiset() == old(self).branches@.to_multiset(),
            final(self).graph == old(self).graph,
            final(self).commit_ids == old(self).commit_ids,
            final(self).file_statuses == old(self).file_statuses,
    {
        broadcast use vstd::seq_lib::group_to_multiset_ensures;
        let ghost all = self.branches@;
        let mut rest: Vec<LocalBranch> = Vec::new();
        std::mem::swap(&mut rest, &mut self.branches);
        assert(rest@ == all);
        let mut out: Vec<LocalBranch> = Vec::new();
        while rest.len() > 0
            invariant
                rest@.len() <= all.len(),
                rest@ == all.skip(all.len() - rest@.len()),
                out@.to_multiset() == all.subrange(0, all.len() - rest@.len()).to_multiset(),
                branches_ordered(out@),
                names_distinct(all),
            decreases rest@.len(),
        {
            let ghost done = all.len() - rest@.len();
            let b = rest.remove(0);
            assert(b == all[done]);
            assert(rest@ =~= all.skip(all.len() - rest@.len()));
            let mut k: usize = 0;
            match &b.name {
                Some(bn) => {
                    while k < out.len() && sorts_before(&out[k].name, bn)
                        invariant
                            k <= out@.len(),
                            b.name == Some(*bn),
                            forall|m: int| 0 <= m < k ==> name_before(#[trigger] out@[m].name, b.name),
                        decreases out@.len() - k,
                    {
                        k = k + 1;
                    }
                    proof {
                        assert forall|m: int| k <= m < out@.len() implies name_before(b.name, #[trigger] out@[m].name) by {
                            let ok = out@[k as int];
                            assert(ok.name is Some);
                            let on = ok.name->0;
                            assert(!seq_lt(on@, bn@));
                            lemma_member_of_permutation(out@, all.subrange(0, done), k as int);
                            let jj = choose|jj: int| 0 <= jj < done && all.subrange(0, done)[jj] == ok;
                            assert(all[jj] == ok);
                            assert(all[jj].name == Some(on) && all[done].name == Some(*bn));
                            assert(on@ != bn@);
                            lemma_lt_total(on@, bn@);
                            if m > k {
                                assert(out@[m].name is Some);
                                lemma_lt_transitive(bn@, on@, out@[m].name->0@);
                            }
                        }
                    }
                },
                None => {},
            }
            let ghost before = out@;
            proof {
                lemma_insert_ordered(out@, k as int, b);
                assert(all.subrange(0, done + 1) =~= all.subrange(0, done).push(b));
                all.subrange(0, done).to_multiset_ensures();
                vstd::seq_lib::to_multiset_insert(before, k as int, b);
            }
            out.insert(k, b);
            assert(out@ == before.insert(k as int, b));
        }
        assert(all.subrange(0, all.len() as int) =~= all);
        self.branches = out;
        proof {
            assert forall|i: int| #![trigger self.branches@[i]] 0 <= i < self.branches@.len() implies exists|j: int|
                0 <= j < all.len() && #[trigger] all[j] == self.branches@[i] by {
                lemma_member_of_permutation(self.branches@, all, i);
            }
            assert(self.tips_known()) by {
                assert forall|i: int| #![trigger self.branches@[i]] 0 <= i < self.branches@.len() implies {
                    &&& self.branches@[i].tip < self.graph@.len()
                    &&& (self.branches@[i].upstream matches Some(u) ==> u.tip < self.graph@.len())
                } by {
                    let j = choose|j: int| 0 <= j < all.len() && #[trigger] all[j] == self.branches@[i];
                    assert(old(self).branches@[j] == all[j]);
                }
            }
            assert(self.tip_ids_distinct()) by {
                assert forall|i: int, j: int| 0 <= i < self.branches@.len() && 0 <= j < self.branches@.len() implies #[trigger] self.tip_pair_distinct(i, j) by {
                    let i2 = choose|i2: int| 0 <= i2 < all.len() && #[trigger] all[i2] == self.branches@[i];
                    let j2 = choose|j2: int| 0 <= j2 < all.len() && #[trigger] all[j2] == self.branches@[j];
                    assert(old(self).tip_pair_distinct(i2, j2));
                    assert forall|ui: bool, uj: bool| match (
                        #[trigger] RepoState::tip_of(self.branches@[i], ui),
                        #[trigger] RepoState::tip_of(self.branches@[j], uj),
                    ) {
                        (Some(x), Some(y)) => self.commit_ids@[x as int]@ == self.commit_ids@[y as int]@ ==> x == y,
                        _ => true,
                    } by {
                        assert(RepoState::tip_of(all[i2], ui) == RepoState::tip_of(self.branches@[i], ui));
                        assert(RepoState::tip_of(all[j2], uj) == RepoState::tip_of(self.branches@[j], uj));
                    }
                }
            }
        }
    }
}

/// The observed state of one local branch.
#[derive(Debug, PartialEq, Eq)]
pub struct BranchStatus {
    pub name: String,
    pub upstream_name: Option<String>,
    pub dirty: DirtyState,
    pub is_head: bool,
    pub in_sync: Option<bool>,
    pub upstream_fetched: bool,
    pub fast_forwarded: bool,
}

impl BranchStatus {
    /// Nothing to report: no dirty checkout, not behind or ahead of the
    /// upstream, nothing fetched, nothing moved.
    pub open spec fn spec_is_clean(&self) -> bool {
        &&& (self.dirty == DirtyState::Clean || !self.is_head)
        &&& self.in_sync != Some(false)
        &&& !self.upstream_fetched
        &&& !self.fast_forwarded
    }

    pub fn is_clean(&self) -> (r: bool)
        ensures
            r == self.spec_is_clean(),
    {
        (self.dirty == DirtyState::Clean || !self.is_head) && match self.in_sync {
            Some(s) => s,
            None => true,
        } && !self.upstream_fetched && !self.fast_forwarded
    }
}

/// The branch statuses of one repository, ordered by name.
pub type RepositoryStatus = Vec<BranchStatus>;

/// The records are ordered strictly by name, so each name occurs once.
pub open spec fn ordered_by_name(st: Seq<BranchStatus>) -> bool {
    forall|i: int, j: int| 0 <= i < j < st.len() ==> seq_lt(#[trigger] st[i].name@, #[trigger] st[j].name@)
}

/// Whether the upstream of `b` is at the same commit as `b`.
pub open spec fn spec_in_sync(state: RepoState, b: LocalBranch) -> Option<bool> {
    match b.upstream {
        Some(u) => Some(state.commit_ids@[b.tip as int]@ == state.commit_ids@[u.tip as int]@),
        None => None,
    }
}

pub open spec fn upstream_name_of(b: LocalBranch) -> Option<Seq<char>> {
    match b.upstream {
        Some(u) => Some(u.name@),
        None => None,
    }
}

/// `s` is the fresh status record of branch `i` of `state`.
pub open spec fn describes_branch(state: RepoState, i: int, s: BranchStatus) -> bool {
    let b = state.branches@[i];
    &&& (b.name matches Some(n) && s.name@ == n@)
    &&& opt_view(s.upstream_name) == upstream_name_of(b)
    &&& s.is_head == b.is_head
    &&& s.dirty == if s.is_head {
        dirty_state_of(state.file_statuses@)
    } else {
        DirtyState::Clean
    }
    &&& s.in_sync == spec_in_sync(state, b)
    &&& !s.upstream_fetched
    &&& !s.fast_forwarded
}

impl LocalBranch {
    /// The branch name, or `NoBranchNameFound` when it is not valid UTF-8.
    pub fn branch_name(&self) -> (r: Result<&String, Error>)
        ensures
            match r {
                Ok(n) => self.name == Some(*n),
                Err(e) => self.name is None && e == Error::NoBranchNameFound,
            },
    {
        match &self.name {
            Some(n) => Ok(n),
            None => Err(Error::NoBranchNameFound),
        }
    }

    /// The name of the configured upstream.
    pub fn upstream_name(&self) -> (r: Option<String>)
        ensures
            opt_view(r) == upstream_name_of(*self),
    {
        match &self.upstream {
            Some(u) => Some(u.name.clone()),
            None => None,
        }
    }

    /// Whether the branch and its upstream are at the same commit; `None`
    /// when no upstream is configured.
    pub fn is_up_to_date_with_upstream(&self, state: &RepoState) -> (r: Option<bool>)
        requires
            state.commit_ids@.len() == state.graph@.len(),
            self.tip < state.graph@.len(),
            self.upstream matches Some(u) ==> u.tip < state.graph@.len(),
        ensures
            r == spec_in_sync(*state, *self),
    {
        match &self.upstream {
            Some(u) => Some(state.commit_ids[self.tip] == state.commit_ids[u.tip]),
            None => None,
        }
    }
}

/// The outcome of the status stage: a fresh record for every branch, in
/// order, or `NoBranchNameFound` when a branch name is not valid UTF-8.
pub open spec fn status_outcome(state: RepoState, r: Result<RepositoryStatus, Error>) -> bool {
        match r {
            Ok(st) => {
                &&& forall|i: int| 0 <= i < state.branches@.len() ==> (#[trigger] state.branches@[i]).name is Some
                &&& st@.len() == state.branches@.len()
                &&& forall|i: int| 0 <= i < st@.len() ==> describes_branch(state, i, #[trigger] st@[i])
                &&& ordered_by_name(st@)
            },
            Err(e) => {
                &&& e == Error::NoBranchNameFound
                &&& exists|i: int| 0 <= i < state.branches@.len() && (#[trigger] state.branches@[i]).name is None
            },
        }
}

/// Computes the status of every local branch of a repository. The
/// dirtiness of the working tree is reported for the checked-out branch
/// only; the other branches are clean.
pub fn project_status(_project: &Project, state: &RepoState) -> (r: Result<RepositoryStatus, Error>)
    requires
        state.wf(),
    ensures
        status_outcome(*state, r),
{
    let dirty = dirty_state(&state.file_statuses);
    let mut out: RepositoryStatus = Vec::new();
    let mut i: usize = 0;
    while i < state.branches.len()
        invariant
            state.wf(),
            dirty == dirty_state_of(state.file_statuses@),
            i <= state.branches@.len(),
            out@.len() == i,
            forall|k: int| 0 <= k < i ==> (#[trigger] state.branches@[k]).name is Some,
            forall|k: int| 0 <= k < i ==> describes_branch(*state, k, #[trigger] out@[k]),
        decreases state.branches@.len() - i,
    {
        let b = &state.branches[i];
        assert(b == state.branches@[i as int]);
        let name = match b.branch_name() {
            Ok(n) => n.clone(),
            Err(e) => {
                return Err(e);
            },
        };
        let is_head = b.is_head;
        let record = BranchStatus {
            name,
            upstream_name: b.upstream_name(),
            dirty: if is_head {
                dirty
            } else {
                DirtyState::Clean
            },
            is_head,
            in_sync: b.is_up_to_date_with_upstream(state),
            upstream_fetched: false,
            fast_forwarded: false,
        };
        out.push(record);
        i = i + 1;
    }
    assert(ordered_by_name(out@)) by {
        assert forall|i: int, j: int| 0 <= i < j < out@.len() implies seq_lt(#[trigger] out@[i].name@, #[trigger] out@[j].name@) by {
            assert(describes_branch(*state, i, out@[i]));
            assert(describes_branch(*state, j, out@[j]));
            let bi = state.branches@[i];
            let bj = state.branches@[j];
            assert(match (bi.name, bj.name) {
                (Some(a), Some(b)) => seq_lt(a@, b@),
                _ => true,
            });
        }
    }
    Ok(out)
}

/// The status stage of the pipeline for one project.
pub fn repo_status(project: &Project, state: &RepoState) -> (r: Result<RepositoryStatus, Error>)
    requires
        state.wf(),
    ensures
        status_outcome(*state, r),
{
    project_status(project, state)
}

/// In a fresh branch record, `in_sync` is `Some(true)` exactly when the
/// branch and its upstream have the same tip commit id, and `None` exactly
/// when no upstream is configured.
pub proof fn lemma_in_sync_iff_same_tip(state: RepoState, i: int, s: BranchStatus)
    requires
        describes_branch(state, i, s),
    ensures
        (s.in_sync == Some(true)) <==> (state.branches@[i].upstream matches Some(u)
            && state.commit_ids@[state.branches@[i].tip as int]@ == state.commit_ids@[u.tip as int]@),
        (s.in_sync is None) <==> (state.branches@[i].upstream is None),
{
}

/// In a well-formed state, a fresh record is in sync exactly when the
/// branch and its upstream are at the same commit.
pub proof fn lemma_in_sync_iff_same_commit(state: RepoState, i: int, s: BranchStatus)
    requires
        state.wf(),
        0 <= i < state.branches@.len(),
        describes_branch(state, i, s),
    ensures
        (s.in_sync == Some(true)) <==> (state.branches@[i].upstream matches Some(u) && state.branches@[i].tip
            == u.tip),
{
    assert(state.tip_pair_distinct(i, i));
    let b = state.branches@[i];
    if b.upstream is Some {
        assert(RepoState::tip_of(b, false) == Some(b.tip));
        assert(RepoState::tip_of(b, true) == Some(b.upstream->0.tip));
    }
}

} // verus!
