use vstd::prelude::*;
use vstd::set_lib::*;

verus! {

/// `parent` is one of the parents of `child` in the parent lists `g`.
pub open spec fn is_parent(g: Seq<Seq<usize>>, child: usize, parent: usize) -> bool {
    child < g.len() && g[child as int].contains(parent)
}

/// `w` is a walk that starts at `w[0]` and follows parent edges only.
pub open spec fn is_walk(g: Seq<Seq<usize>>, w: Seq<usize>) -> bool {
    &&& w.len() >= 1
    &&& forall|i: int, j: int|
        0 <= i && j == i + 1 && j < w.len() ==> #[trigger] is_parent(g, w[i], w[j])
}

/// `a` is reached from `c` by following one or more parent edges.
pub open spec fn is_strict_ancestor(g: Seq<Seq<usize>>, a: usize, c: usize) -> bool {
    exists|w: Seq<usize>| #[trigger] is_walk(g, w) && w.len() >= 2 && w[0] == c && w.last() == a
}

/// Every parent of a commit was recorded before the commit itself.
pub open spec fn graph_wf(g: Seq<Seq<usize>>) -> bool {
    forall|c: int, j: int| 0 <= c < g.len() && 0 <= j < g[c].len() ==> #[trigger] g[c][j] < c
}

/// The commit-parent graph of a repository. Commits are numbered in the
/// order in which they were added, and a commit can only name commits that
/// are already present as parents, so the graph has no cycles.
pub struct CommitGraph {
    parents: Vec<Vec<usize>>,
}

impl View for CommitGraph {
    type V = Seq<Seq<usize>>;

    closed spec fn view(&self) -> Seq<Seq<usize>> {
        Seq::new(self.parents@.len(), |i: int| self.parents@[i]@)
    }
}

impl CommitGraph {
    pub open spec fn wf(&self) -> bool {
        graph_wf(self@)
    }

    /// Whether every commit names only earlier commits as parents.
    pub fn is_well_formed(&self) -> (r: bool)
        ensures
            r == self.wf(),
    {
        let mut c: usize = 0;
        while c < self.parents.len()
            invariant
                c <= self@.len(),
                forall|i: int, j: int| 0 <= i < c && 0 <= j < self@[i].len() ==> #[trigger] self@[i][j] < i,
            decreases self@.len() - c,
        {
            let ps = &self.parents[c];
            let mut j: usize = 0;
            while j < ps.len()
                invariant
                    c < self@.len(),
                    ps@ == self@[c as int],
                    j <= ps@.len(),
                    forall|i: int, jj: int| 0 <= i < c && 0 <= jj < self@[i].len() ==> #[trigger] self@[i][jj] < i,
                    forall|jj: int| 0 <= jj < j ==> #[trigger] self@[c as int][jj] < c,
                decreases ps@.len() - j,
            {
                if ps[j] >= c {
                    return false;
                }
                j = j + 1;
            }
            c = c + 1;
        }
        true
    }

    pub fn new() -> (r: CommitGraph)
        ensures
            r.wf(),
            r@ == Seq::<Seq<usize>>::empty(),
    {
        let r = CommitGraph { parents: Vec::new() };
        assert(r@ =~= Seq::<Seq<usize>>::empty());
        r
    }

    pub fn len(&self) -> (r: usize)
        ensures
            r == self@.len(),
    {
        self.parents.len()
    }

    /// Adds a commit with the given parents and returns its number, or
    /// `None` (leaving the graph as it is) when a parent is not yet known.
    pub fn add_commit(&mut self, parents: Vec<usize>) -> (r: Option<usize>)
        ensures
            old(self).wf() ==> final(self).wf(),
            match r {
                Some(c) => {
                    &&& c == old(self)@.len()
                    &&& final(self)@ == old(self)@.push(parents@)
                },
                None => {
                    &&& final(self)@ == old(self)@
                    &&& exists|j: int| 0 <= j < parents@.len() && parents@[j] >= old(self)@.len()
                },
            },
    {
        let n = self.parents.len();
        let mut j: usize = 0;
        while j < parents.len()
            invariant
                j <= parents@.len(),
                n == self@.len(),
                self@ == old(self)@,
                forall|k: int| 0 <= k < j ==> parents@[k] < n,
            decreases parents@.len() - j,
        {
            if parents[j] >= n {
                return None;
            }
            j = j + 1;
        }
        let ghost before = self@;
        self.parents.push(parents);
        assert(self@ =~= before.push(parents@));
        Some(n)
    }

    pub fn parents_of(&self, c: usize) -> (r: &Vec<usize>)
        requires
            c < self@.len(),
        ensures
            r@ == self@[c as int],
    {
        &self.parents[c]
    }
}

/// Along a walk the commit numbers strictly decrease.
pub proof fn lemma_walk_decreases(g: Seq<Seq<usize>>, w: Seq<usize>, k: int)
    requires
        graph_wf(g),
        is_walk(g, w),
        0 < k < w.len(),
    ensures
        w[k] < w[0],
    decreases k,
{
    assert(is_parent(g, w[k - 1], w[k]));
    let jj = choose|jj: int| 0 <= jj < g[w[k - 1] as int].len() && #[trigger] g[w[k - 1] as int][jj] == w[k];
    assert(g[w[k - 1] as int][jj] < w[k - 1]);
    if k > 1 {
        lemma_walk_decreases(g, w, k - 1);
    }
}

/// A strict ancestor has a smaller number than its descendant.
pub proof fn lemma_ancestor_is_older(g: Seq<Seq<usize>>, a: usize, c: usize)
    requires
        graph_wf(g),
        is_strict_ancestor(g, a, c),
    ensures
        a < c,
{
    let w = choose|w: Seq<usize>| #[trigger] is_walk(g, w) && w.len() >= 2 && w[0] == c && w.last() == a;
    lemma_walk_decreases(g, w, w.len() - 1);
}

/// A commit is never its own strict ancestor.
pub proof fn lemma_not_own_ancestor(g: Seq<Seq<usize>>, c: usize)
    requires
        graph_wf(g),
    ensures
        !is_strict_ancestor(g, c, c),
{
    if is_strict_ancestor(g, c, c) {
        lemma_ancestor_is_older(g, c, c);
    }
}

/// Two distinct commits are never strict ancestors of each other.
pub proof fn lemma_ancestry_antisymmetric(g: Seq<Seq<usize>>, a: usize, b: usize)
    requires
        graph_wf(g),
        is_strict_ancestor(g, b, a),
    ensures
        !is_strict_ancestor(g, a, b),
{
    lemma_ancestor_is_older(g, b, a);
    if is_strict_ancestor(g, a, b) {
        lemma_ancestor_is_older(g, a, b);
    }
}

proof fn lemma_parent_is_ancestor(g: Seq<Seq<usize>>, c: usize, p: usize)
    requires
        is_parent(g, c, p),
    ensures
        is_strict_ancestor(g, p, c),
{
    let w = seq![c, p];
    assert forall|i: int, j: int| 0 <= i && j == i + 1 && j < w.len() implies #[trigger] is_parent(
        g,
        w[i],
        w[j],
    ) by {
        assert(i == 0 && j == 1);
    }
    assert(is_walk(g, w) && w.len() >= 2 && w[0] == c && w.last() == p);
}

proof fn lemma_ancestor_extend(g: Seq<Seq<usize>>, a: usize, c: usize, p: usize)
    requires
        is_strict_ancestor(g, a, c),
        is_parent(g, a, p),
    ensures
        is_strict_ancestor(g, p, c),
{
    let w = choose|w: Seq<usize>| #[trigger] is_walk(g, w) && w.len() >= 2 && w[0] == c && w.last() == a;
    let w2 = w.push(p);
    assert forall|i: int, j: int| 0 <= i && j == i + 1 && j < w2.len() implies #[trigger] is_parent(
        g,
        w2[i],
        w2[j],
    ) by {
        if j < w.len() {
            assert(is_parent(g, w[i], w[j]));
        }
    }
    assert(is_walk(g, w2) && w2.len() >= 2 && w2[0] == c && w2.last() == p);
}

/// `a` is reached from `c` by at least one and at most `k` parent steps.
pub open spec fn reach_within(g: Seq<Seq<usize>>, c: usize, a: usize, k: nat) -> bool {
    exists|w: Seq<usize>| #[trigger] is_walk(g, w) && 2 <= w.len() <= k + 1 && w[0] == c && w.last() == a
}

/// `a` is reached from `c` within `d` parent steps, while no strict
/// ancestor of `a` is: the history of `c` meets `a` before it meets any
/// commit older than `a`.
pub open spec fn met_before_older(g: Seq<Seq<usize>>, c: usize, a: usize, d: nat) -> bool {
    &&& reach_within(g, c, a, d)
    &&& forall|x: usize| is_strict_ancestor(g, x, a) ==> !#[trigger] reach_within(g, c, x, d)
}

proof fn lemma_reach_is_ancestor(g: Seq<Seq<usize>>, c: usize, a: usize, k: nat)
    requires
        reach_within(g, c, a, k),
    ensures
        is_strict_ancestor(g, a, c),
{
    let w = choose|w: Seq<usize>| #[trigger] is_walk(g, w) && 2 <= w.len() <= k + 1 && w[0] == c && w.last() == a;
    assert(is_walk(g, w) && w.len() >= 2 && w[0] == c && w.last() == a);
}

proof fn lemma_reach_mono(g: Seq<Seq<usize>>, c: usize, a: usize, k: nat, k2: nat)
    requires
        reach_within(g, c, a, k),
        k <= k2,
    ensures
        reach_within(g, c, a, k2),
{
    let w = choose|w: Seq<usize>| #[trigger] is_walk(g, w) && 2 <= w.len() <= k + 1 && w[0] == c && w.last() == a;
    assert(is_walk(g, w) && 2 <= w.len() <= k2 + 1 && w[0] == c && w.last() == a);
}

proof fn lemma_reach_parent(g: Seq<Seq<usize>>, c: usize, p: usize)
    requires
        is_parent(g, c, p),
    ensures
        reach_within(g, c, p, 1),
{
    let w = seq![c, p];
    assert forall|i: int, j: int| 0 <= i && j == i + 1 && j < w.len() implies #[trigger] is_parent(
        g,
        w[i],
        w[j],
    ) by {
        assert(i == 0 && j == 1);
    }
    assert(is_walk(g, w) && 2 <= w.len() <= 2 && w[0] == c && w.last() == p);
}

proof fn lemma_reach_extend(g: Seq<Seq<usize>>, c: usize, a: usize, k: nat, p: usize)
    requires
        reach_within(g, c, a, k),
        is_parent(g, a, p),
    ensures
        reach_within(g, c, p, k + 1),
{
    let w = choose|w: Seq<usize>| #[trigger] is_walk(g, w) && 2 <= w.len() <= k + 1 && w[0] == c && w.last() == a;
    let w2 = w.push(p);
    assert forall|i: int, j: int| 0 <= i && j == i + 1 && j < w2.len() implies #[trigger] is_parent(
        g,
        w2[i],
        w2[j],
    ) by {
        if j < w.len() {
            assert(is_parent(g, w[i], w[j]));
        }
    }
    assert(is_walk(g, w2) && 2 <= w2.len() <= k + 2 && w2[0] == c && w2.last() == p);
}

/// A sequence of distinct commit numbers below `n` has at most `n` elements.
proof fn lemma_distinct_bounded(s: Seq<usize>, n: nat)
    requires
        s.no_duplicates(),
        forall|k: int| 0 <= k < s.len() ==> s[k] < n,
    ensures
        s.len() <= n,
{
    let t = s.map_values(|x: usize| x as int);
    assert(t.no_duplicates()) by {
        assert forall|i: int, j: int| 0 <= i < t.len() && 0 <= j < t.len() && i != j implies t[i]
            != t[j] by {
            assert(s[i] != s[j]);
        }
    }
    t.unique_seq_to_set();
    lemma_int_range(0, n as int);
    assert(t.to_set().subset_of(set_int_range(0, n as int))) by {
        assert forall|x: int| t.to_set().contains(x) implies set_int_range(0, n as int).contains(
            x,
        ) by {
            let k = choose|k: int| 0 <= k < t.len() && t[k] == x;
            assert(s[k] < n);
        }
    }
    lemma_len_subset(t.to_set(), set_int_range(0, n as int));
}

/// A breadth-first walk over the strict ancestors of `start`, which hands
/// out every ancestor once.
pub struct Ancestors {
    start: usize,
    queue: Vec<usize>,
    head: usize,
    enqueued: Vec<bool>,
    visited: Vec<bool>,
    /// For each enqueued commit, the number of parent steps after which the
    /// walk found it.
    depth: Ghost<Seq<nat>>,
}

impl Ancestors {
    /// Each enqueued commit was found at a depth of at least one, is reached
    /// from the origin within that many steps, and the queue is ordered by
    /// depth.
    closed spec fn depths_ok(&self, g: Seq<Seq<usize>>) -> bool {
        &&& self.depth@.len() == g.len()
        &&& forall|k: int|
            0 <= k < self.queue@.len() ==> {
                &&& #[trigger] self.depth@[self.queue@[k] as int] >= 1
                &&& reach_within(g, self.start, self.queue@[k], self.depth@[self.queue@[k] as int])
            }
        &&& forall|k: int, j: int|
            0 <= k <= j < self.queue@.len() ==> #[trigger] self.depth@[self.queue@[k] as int]
                <= #[trigger] self.depth@[self.queue@[j] as int]
    }

    closed spec fn depths_at_most(&self, top: nat) -> bool {
        forall|k: int| 0 <= k < self.queue@.len() ==> #[trigger] self.depth@[self.queue@[k] as int] <= top
    }

    /// The walk is breadth-first: parents of handed-out commits were found
    /// one step later, and the queue spans at most two depths.
    pub closed spec fn depth_inv(&self, g: Seq<Seq<usize>>) -> bool {
        &&& self.depths_ok(g)
        &&& forall|j: int|
            0 <= j < g[self.start as int].len() ==> self.depth@[#[trigger] g[self.start as int][j] as int] <= 1
        &&& forall|k: int, j: int|
            0 <= k < self.head && 0 <= j < g[self.queue@[k] as int].len()
                ==> self.depth@[#[trigger] g[self.queue@[k] as int][j] as int] <= self.depth@[self.queue@[k] as int] + 1
        &&& self.head > 0 ==> self.depths_at_most(self.depth@[self.queue@[self.head - 1] as int] + 1)
        &&& self.head == 0 ==> forall|k: int|
            0 <= k < self.queue@.len() ==> #[trigger] self.depth@[self.queue@[k] as int] == 1
    }

    /// The commit whose ancestors are walked.
    pub closed spec fn origin(&self) -> usize {
        self.start
    }

    /// The ancestors handed out so far, in order.
    pub closed spec fn returned(&self) -> Seq<usize> {
        self.queue@.subrange(0, self.head as int)
    }

    pub closed spec fn inv(&self, g: Seq<Seq<usize>>) -> bool {
        &&& graph_wf(g)
        &&& self.start < g.len()
        &&& self.enqueued@.len() == g.len()
        &&& self.visited@.len() == g.len()
        &&& self.head <= self.queue@.len()
        &&& self.queue@.no_duplicates()
        &&& forall|k: int|
            0 <= k < self.queue@.len() ==> {
                &&& #[trigger] self.queue@[k] < g.len()
                &&& self.enqueued@[self.queue@[k] as int]
                &&& is_strict_ancestor(g, self.queue@[k], self.start)
            }
        &&& forall|i: int| 0 <= i < g.len() && #[trigger] self.enqueued@[i] ==> self.queue@.contains(i as usize)
        &&& forall|i: usize|
            i < g.len() ==> (#[trigger] self.visited@[i as int] <==> self.returned().contains(i))
        &&& forall|j: int|
            0 <= j < g[self.start as int].len() ==> self.enqueued@[#[trigger] g[self.start as int][j] as int]
        &&& forall|k: int, j: int|
            0 <= k < self.head && 0 <= j < g[self.queue@[k] as int].len()
                ==> self.enqueued@[#[trigger] g[self.queue@[k] as int][j] as int]
    }

    proof fn lemma_inv_facts(&self, g: Seq<Seq<usize>>)
        requires
            self.inv(g),
        ensures
            self.head <= self.queue@.len() <= g.len(),
            forall|k: int| 0 <= k < self.returned().len() ==> is_strict_ancestor(g, #[trigger] self.returned()[k], self.start),
    {
        lemma_distinct_bounded(self.queue@, g.len());
        assert forall|k: int| 0 <= k < self.returned().len() implies is_strict_ancestor(g, #[trigger] self.returned()[k], self.start) by {
            assert(self.returned()[k] == self.queue@[k]);
        }
    }

    /// Number of ancestors handed out so far.
    pub closed spec fn count(&self) -> nat {
        self.head as nat
    }

    /// Number of ancestors found so far: those handed out, and those
    /// waiting in the queue.
    pub closed spec fn found(&self) -> nat {
        self.queue@.len()
    }

    /// The number of ancestors found so far.
    pub fn found_count(&self) -> (r: usize)
        ensures
            r == self.found(),
    {
        self.queue.len()
    }

    /// The number of ancestors handed out so far.
    pub fn count_handed_out(&self) -> (r: usize)
        ensures
            r == self.count(),
    {
        self.head
    }

    /// Enqueues every parent of `c` that was not enqueued before.
    fn enqueue_parents(&mut self, g: &CommitGraph, c: usize, base: Ghost<nat>)
        requires
            old(self).depths_ok(g@),
            old(self).depths_at_most(base@ + 1),
            (c == old(self).start && base@ == 0) || (base@ >= 1 && reach_within(g@, old(self).start, c, base@)),
            graph_wf(g@),
            c < g@.len(),
            is_strict_ancestor(g@, c, old(self).start) || c == old(self).start,
            old(self).start < g@.len(),
            old(self).enqueued@.len() == g@.len(),
            old(self).head <= old(self).queue@.len(),
            old(self).queue@.no_duplicates(),
            forall|k: int|
                0 <= k < old(self).queue@.len() ==> {
                    &&& #[trigger] old(self).queue@[k] < g@.len()
                    &&& old(self).enqueued@[old(self).queue@[k] as int]
                    &&& is_strict_ancestor(g@, old(self).queue@[k], old(self).start)
                },
            forall|i: int| 0 <= i < g@.len() && #[trigger] old(self).enqueued@[i] ==> old(self).queue@.contains(i as usize),
        ensures
            final(self).start == old(self).start,
            final(self).head == old(self).head,
            final(self).visited == old(self).visited,
            final(self).enqueued@.len() == g@.len(),
            final(self).queue@.no_duplicates(),
            final(self).queue@.subrange(0, old(self).queue@.len() as int) == old(self).queue@,
            final(self).queue@.len() >= old(self).queue@.len(),
            forall|k: int|
                0 <= k < final(self).queue@.len() ==> {
                    &&& #[trigger] final(self).queue@[k] < g@.len()
                    &&& final(self).enqueued@[final(self).queue@[k] as int]
                    &&& is_strict_ancestor(g@, final(self).queue@[k], final(self).start)
                },
            forall|i: int| 0 <= i < g@.len() && #[trigger] final(self).enqueued@[i] ==> final(self).queue@.contains(i as usize),
            forall|i: int| 0 <= i < g@.len() && old(self).enqueued@[i] ==> #[trigger] final(self).enqueued@[i],
            forall|j: int| 0 <= j < g@[c as int].len() ==> final(self).enqueued@[#[trigger] g@[c as int][j] as int],
            final(self).depths_ok(g@),
            final(self).depths_at_most(base@ + 1),
            forall|i: int| 0 <= i < g@.len() && old(self).enqueued@[i] ==> #[trigger] final(self).depth@[i] == old(self).depth@[i],
            forall|k: int|
                old(self).queue@.len() <= k < final(self).queue@.len() ==> #[trigger] final(self).depth@[final(self).queue@[k] as int] == base@ + 1,
    {
        let ps = g.parents_of(c);
        let mut j: usize = 0;
        while j < ps.len()
            invariant
                ps@ == g@[c as int],
                graph_wf(g@),
                c < g@.len(),
                is_strict_ancestor(g@, c, self.start) || c == self.start,
                j <= ps@.len(),
                self.start == old(self).start,
                self.head == old(self).head,
                self.visited == old(self).visited,
                self.enqueued@.len() == g@.len(),
                self.queue@.no_duplicates(),
                self.queue@.subrange(0, old(self).queue@.len() as int) == old(self).queue@,
                self.queue@.len() >= old(self).queue@.len(),
                forall|k: int|
                    0 <= k < self.queue@.len() ==> {
                        &&& #[trigger] self.queue@[k] < g@.len()
                        &&& self.enqueued@[self.queue@[k] as int]
                        &&& is_strict_ancestor(g@, self.queue@[k], self.start)
                    },
                forall|i: int| 0 <= i < g@.len() && #[trigger] self.enqueued@[i] ==> self.queue@.contains(i as usize),
                forall|i: int| 0 <= i < g@.len() && old(self).enqueued@[i] ==> #[trigger] self.enqueued@[i],
                forall|jj: int| 0 <= jj < j ==> self.enqueued@[#[trigger] g@[c as int][jj] as int],
                self.depths_ok(g@),
                self.depths_at_most(base@ + 1),
                (c == self.start && base@ == 0) || (base@ >= 1 && reach_within(g@, self.start, c, base@)),
                forall|i: int| 0 <= i < g@.len() && old(self).enqueued@[i] ==> #[trigger] self.depth@[i] == old(self).depth@[i],
                forall|k: int|
                    old(self).queue@.len() <= k < self.queue@.len() ==> #[trigger] self.depth@[self.queue@[k] as int] == base@ + 1,
            decreases ps@.len() - j,
        {
            let p = ps[j];
            assert(g@[c as int][j as int] < c);
            if !self.enqueued[p] {
                proof {
                    assert(is_parent(g@, c, p)) by {
                        assert(g@[c as int][j as int] == p);
                    }
                    if c == self.start {
                        lemma_parent_is_ancestor(g@, c, p);
                        lemma_reach_parent(g@, c, p);
                    } else {
                        lemma_ancestor_extend(g@, c, self.start, p);
                        lemma_reach_extend(g@, self.start, c, base@, p);
                    }
                    assert(reach_within(g@, self.start, p, base@ + 1));
                    assert(!self.queue@.contains(p));
                    assert(!old(self).enqueued@[p as int]);
                }
                let ghost q0 = self.queue@;
                let ghost d0 = self.depth@;
                self.queue.push(p);
                self.enqueued.set(p, true);
                self.depth = Ghost(d0.update(p as int, base@ + 1));
                proof {
                    assert forall|k: int| 0 <= k < q0.len() implies self.depth@[#[trigger] q0[k] as int] == d0[q0[k] as int] by {
                        assert(q0[k] != p);
                    }
                    assert forall|k: int| 0 <= k < self.queue@.len() implies {
                        &&& #[trigger] self.depth@[self.queue@[k] as int] >= 1
                        &&& reach_within(g@, self.start, self.queue@[k], self.depth@[self.queue@[k] as int])
                    } by {
                        if k < q0.len() {
                            assert(self.queue@[k] == q0[k]);
                            assert(self.depth@[q0[k] as int] == d0[q0[k] as int]);
                        }
                    }
                    assert forall|k: int, jj: int|
                        0 <= k <= jj < self.queue@.len() implies #[trigger] self.depth@[self.queue@[k] as int]
                            <= #[trigger] self.depth@[self.queue@[jj] as int] by {
                        if jj < q0.len() {
                            assert(self.queue@[k] == q0[k]);
                            assert(self.queue@[jj] == q0[jj]);
                            assert(self.depth@[q0[k] as int] == d0[q0[k] as int]);
                            assert(self.depth@[q0[jj] as int] == d0[q0[jj] as int]);
                        } else if k < q0.len() {
                            assert(self.queue@[k] == q0[k]);
                            assert(self.depth@[q0[k] as int] == d0[q0[k] as int]);
                        }
                    }
                    assert(self.depths_at_most(base@ + 1)) by {
                        assert forall|k: int| 0 <= k < self.queue@.len() implies #[trigger] self.depth@[self.queue@[k] as int] <= base@ + 1 by {
                            if k < q0.len() {
                                assert(self.queue@[k] == q0[k]);
                                assert(self.depth@[q0[k] as int] == d0[q0[k] as int]);
                            }
                        }
                    }
                    assert forall|k: int|
                        old(self).queue@.len() <= k < self.queue@.len() implies #[trigger] self.depth@[self.queue@[k] as int] == base@ + 1 by {
                        if k < q0.len() {
                            assert(self.queue@[k] == q0[k]);
                            assert(self.depth@[q0[k] as int] == d0[q0[k] as int]);
                        }
                    }
                    assert forall|i: int| 0 <= i < g@.len() && old(self).enqueued@[i] implies #[trigger] self.depth@[i] == old(self).depth@[i] by {
                        assert(i != p as int);
                    }
                    assert(self.queue@ == q0.push(p));
                    assert(self.queue@.subrange(0, old(self).queue@.len() as int) =~= old(self).queue@) by {
                        assert(q0.subrange(0, old(self).queue@.len() as int) == old(self).queue@);
                    }
                    assert forall|i: int| 0 <= i < g@.len() && #[trigger] self.enqueued@[i] implies self.queue@.contains(i as usize) by {
                        if i == p as int {
                            assert(self.queue@[q0.len() as int] == p);
                        } else {
                            let k = choose|k: int| 0 <= k < q0.len() && q0[k] == i as usize;
                            assert(self.queue@[k] == i as usize);
                        }
                    }
                    assert forall|k: int| 0 <= k < self.queue@.len() implies {
                        &&& #[trigger] self.queue@[k] < g@.len()
                        &&& self.enqueued@[self.queue@[k] as int]
                        &&& is_strict_ancestor(g@, self.queue@[k], self.start)
                    } by {
                        if k < q0.len() {
                            assert(self.queue@[k] == q0[k]);
                        }
                    }
                }
            }
            j = j + 1;
        }
    }

    /// Starts a walk over the strict ancestors of `start`.
    pub fn new(g: &CommitGraph, start: usize) -> (r: Ancestors)
        requires
            g.wf(),
            start < g@.len(),
        ensures
            r.inv(g@),
            r.origin() == start,
            r.returned() == Seq::<usize>::empty(),
            r.count() == 0,
            r.found() <= g@.len(),
            r.depth_inv(g@),
    {
        let n = g.len();
        let mut r = Ancestors {
            start,
            queue: Vec::new(),
            head: 0,
            enqueued: vec![false; n],
            visited: vec![false; n],
            depth: Ghost(Seq::new(n as nat, |i: int| 0nat)),
        };
        r.enqueue_parents(g, start, Ghost(0nat));
        assert(r.returned() =~= Seq::<usize>::empty());
        proof {
            r.lemma_inv_facts(g@);
            assert forall|j: int| 0 <= j < g@[start as int].len() implies r.depth@[#[trigger] g@[start as int][j] as int] <= 1 by {
                let x = g@[start as int][j];
                assert(r.queue@.contains(x));
                let k = choose|k: int| 0 <= k < r.queue@.len() && r.queue@[k] == x;
                assert(r.depth@[r.queue@[k] as int] <= 1);
            }
        }
        r
    }

    /// Hands out the next ancestor in breadth-first order, or `None` once
    /// every strict ancestor of the origin has been handed out.
    pub fn next(&mut self, g: &CommitGraph) -> (r: Option<usize>)
        requires
            old(self).inv(g@),
            old(self).depth_inv(g@),
        ensures
            final(self).inv(g@),
            final(self).depth_inv(g@),
            final(self).origin() == old(self).origin(),
            final(self).count() <= final(self).found() <= g@.len(),
            old(self).found() <= final(self).found(),
            (r is None) <==> old(self).count() == old(self).found(),
            match r {
                Some(c) => {
                    &&& final(self).returned() == old(self).returned().push(c)
                    &&& final(self).count() == old(self).count() + 1
                    &&& is_strict_ancestor(g@, c, old(self).origin())
                },
                None => {
                    &&& final(self).returned() == old(self).returned()
                    &&& forall|a: usize| is_strict_ancestor(g@, a, old(self).origin()) ==> #[trigger] old(self).returned().contains(a)
                },
            },
    {
        proof {
            self.lemma_inv_facts(g@);
        }
        if self.head == self.queue.len() {
            proof {
                self.lemma_exhausted_complete(g@);
            }
            return None;
        }
        let c = self.queue[self.head];
        let ghost old_returned = self.returned();
        let ghost q0 = self.queue@;
        assert(is_strict_ancestor(g@, c, self.start));
        self.head = self.head + 1;
        self.visited.set(c, true);
        let ghost d0 = self.depth@;
        let ghost h0 = (self.head - 1) as int;
        proof {
            assert(q0[h0] == c);
            assert(self.depths_at_most(d0[c as int] + 1)) by {
                assert forall|k: int| 0 <= k < self.queue@.len() implies #[trigger] self.depth@[self.queue@[k] as int] <= d0[c as int] + 1 by {
                    if h0 > 0 {
                        assert(old(self).depths_at_most(d0[q0[h0 - 1] as int] + 1));
                        assert(d0[q0[h0 - 1] as int] <= d0[q0[h0] as int]);
                    } else {
                        assert(d0[q0[k] as int] == 1);
                        assert(d0[q0[0] as int] == 1);
                    }
                }
            }
            assert(d0[c as int] >= 1 && reach_within(g@, self.start, c, d0[c as int]));
        }
        self.enqueue_parents(g, c, Ghost(d0[c as int]));
        proof {
            assert(old(self).enqueued@[c as int]);
            assert(self.depth@[c as int] == d0[c as int]);
            assert forall|j: int| 0 <= j < g@[self.start as int].len() implies self.depth@[#[trigger] g@[self.start as int][j] as int] <= 1 by {
                let x = g@[self.start as int][j];
                assert(old(self).enqueued@[x as int]);
            }
            assert forall|k: int, j: int|
                0 <= k < self.head && 0 <= j < g@[self.queue@[k] as int].len()
                implies self.depth@[#[trigger] g@[self.queue@[k] as int][j] as int] <= self.depth@[self.queue@[k] as int] + 1 by {
                assert(self.queue@[k] == q0[k]);
                let x = g@[q0[k] as int][j];
                if k < h0 {
                    assert(old(self).enqueued@[x as int]);
                    assert(old(self).enqueued@[q0[k] as int]);
                    assert(d0[x as int] <= d0[q0[k] as int] + 1);
                } else {
                    assert(self.enqueued@[x as int]);
                    assert(self.queue@.contains(x));
                    let kk = choose|kk: int| 0 <= kk < self.queue@.len() && self.queue@[kk] == x;
                    assert(self.depth@[self.queue@[kk] as int] <= d0[c as int] + 1);
                }
            }
            assert(self.queue@[self.head - 1] == c);
        }
        proof {
            assert(self.returned() =~= old_returned.push(c)) by {
                assert(self.queue@.subrange(0, q0.len() as int) == q0);
                assert forall|k: int| 0 <= k < self.head implies self.returned()[k] == old_returned.push(c)[k] by {
                    assert(self.queue@[k] == q0[k]);
                }
            }
            assert forall|i: usize| i < g@.len() implies (#[trigger] self.visited@[i as int] <==> self.returned().contains(i)) by {
                if i == c {
                    assert(self.returned()[self.head - 1] == c);
                } else {
                    assert(old(self).visited@[i as int] <==> old_returned.contains(i));
                    if old_returned.contains(i) {
                        let k = choose|k: int| 0 <= k < old_returned.len() && old_returned[k] == i;
                        assert(self.returned()[k] == i);
                    }
                    if self.returned().contains(i) {
                        let k = choose|k: int| 0 <= k < self.returned().len() && self.returned()[k] == i;
                        assert(self.returned()[k] == old_returned.push(c)[k]);
                        assert(old_returned[k] == i);
                    }
                }
            }
            assert forall|j: int| 0 <= j < g@[self.start as int].len() implies self.enqueued@[#[trigger] g@[self.start as int][j] as int] by {
                assert(old(self).enqueued@[g@[self.start as int][j] as int]);
            }
            assert forall|k: int, j: int|
                0 <= k < self.head && 0 <= j < g@[self.queue@[k] as int].len()
                implies self.enqueued@[#[trigger] g@[self.queue@[k] as int][j] as int] by {
                assert(self.queue@[k] == q0[k]);
                if k < self.head - 1 {
                    assert(old(self).enqueued@[g@[q0[k] as int][j] as int]);
                }
            }
            self.lemma_inv_facts(g@);
        }
        Some(c)
    }

    proof fn lemma_exhausted_complete(&self, g: Seq<Seq<usize>>)
        requires
            self.inv(g),
            self.head == self.queue@.len(),
        ensures
            forall|a: usize| is_strict_ancestor(g, a, self.start) ==> #[trigger] self.returned().contains(a),
    {
        assert forall|a: usize| is_strict_ancestor(g, a, self.start) implies #[trigger] self.returned().contains(a) by {
            let w = choose|w: Seq<usize>| #[trigger] is_walk(g, w) && w.len() >= 2 && w[0] == self.start && w.last() == a;
            self.lemma_walk_enqueued(g, w, w.len() - 1);
            let k = choose|k: int| 0 <= k < self.queue@.len() && self.queue@[k] == a;
            assert(self.returned()[k] == a);
        }
    }

    proof fn lemma_walk_enqueued(&self, g: Seq<Seq<usize>>, w: Seq<usize>, k: int)
        requires
            self.inv(g),
            self.head == self.queue@.len(),
            is_walk(g, w),
            w[0] == self.start,
            1 <= k < w.len(),
        ensures
            w[k] < g.len(),
            self.enqueued@[w[k] as int],
        decreases k,
    {
        assert(is_parent(g, w[k - 1], w[k]));
        let jj = choose|jj: int| 0 <= jj < g[w[k - 1] as int].len() && #[trigger] g[w[k - 1] as int][jj] == w[k];
        if k == 1 {
            assert(self.enqueued@[g[self.start as int][jj] as int]);
        } else {
            self.lemma_walk_enqueued(g, w, k - 1);
            let kk = choose|kk: int| 0 <= kk < self.queue@.len() && self.queue@[kk] == w[k - 1];
            assert(self.enqueued@[g[self.queue@[kk] as int][jj] as int]);
        }
        assert(g[w[k - 1] as int][jj] < w[k - 1]);
    }

    /// Following a walk from the origin, the first commit of the walk that
    /// has not been handed out yet was found no deeper than its place on the
    /// walk; so either the walk's end was found within the walk's length, or
    /// a commit still waiting was found in fewer steps.
    proof fn lemma_walk_progress(&self, g: Seq<Seq<usize>>, w: Seq<usize>, i: int)
        requires
            self.inv(g),
            self.depth_inv(g),
            is_walk(g, w),
            w[0] == self.start,
            1 <= i < w.len(),
            w[i] < g.len(),
            self.enqueued@[w[i] as int],
            self.depth@[w[i] as int] <= i,
        ensures
            (self.enqueued@[w.last() as int] && self.depth@[w.last() as int] <= w.len() - 1) || exists|k: int|
                self.head <= k < self.queue@.len() && #[trigger] self.depth@[self.queue@[k] as int] <= w.len() - 2,
        decreases w.len() - i,
    {
        if i < w.len() - 1 {
            assert(self.queue@.contains(w[i]));
            let k = choose|k: int| 0 <= k < self.queue@.len() && self.queue@[k] == w[i];
            if k < self.head {
                assert(is_parent(g, w[i], w[i + 1]));
                let jj = choose|jj: int| 0 <= jj < g[w[i] as int].len() && #[trigger] g[w[i] as int][jj] == w[i + 1];
                assert(self.enqueued@[g[self.queue@[k] as int][jj] as int]);
                assert(self.depth@[g[self.queue@[k] as int][jj] as int] <= self.depth@[self.queue@[k] as int] + 1);
                assert(g[w[i] as int][jj] < w[i]);
                self.lemma_walk_progress(g, w, i + 1);
            } else {
                assert(self.depth@[self.queue@[k] as int] <= w.len() - 2);
            }
        }
    }

    /// While `a` has not been handed out, every commit handed out is reached
    /// from the origin within any number of steps that reaches `a`.
    proof fn lemma_returned_within(&self, g: Seq<Seq<usize>>, a: usize, d: nat)
        requires
            self.inv(g),
            self.depth_inv(g),
            reach_within(g, self.start, a, d),
            !self.returned().contains(a),
        ensures
            forall|k: int| 0 <= k < self.returned().len() ==> reach_within(g, self.start, #[trigger] self.returned()[k], d),
    {
        lemma_reach_is_ancestor(g, self.start, a, d);
        lemma_ancestor_is_older(g, a, self.start);
        let w = choose|w: Seq<usize>| #[trigger] is_walk(g, w) && 2 <= w.len() <= d + 1 && w[0] == self.start && w.last() == a;
        assert(is_parent(g, w[0], w[1]));
        let jj = choose|jj: int| 0 <= jj < g[w[0] as int].len() && #[trigger] g[w[0] as int][jj] == w[1];
        assert(self.enqueued@[g[self.start as int][jj] as int]);
        assert(self.depth@[g[self.start as int][jj] as int] <= 1);
        assert(g[w[0] as int][jj] < w[0]);
        self.lemma_walk_progress(g, w, 1);
        let bound: nat = (w.len() - 1) as nat;
        let p: int = if self.enqueued@[a as int] && self.depth@[a as int] <= bound {
            choose|p: int| 0 <= p < self.queue@.len() && self.queue@[p] == a
        } else {
            choose|p: int| self.head <= p < self.queue@.len() && #[trigger] self.depth@[self.queue@[p] as int] <= w.len() - 2
        };
        assert(self.head <= p < self.queue@.len() && self.depth@[self.queue@[p] as int] <= bound) by {
            if self.enqueued@[a as int] && self.depth@[a as int] <= bound {
                assert(self.queue@.contains(a));
                if p < self.head {
                    assert(self.returned()[p] == a);
                }
            }
        }
        assert forall|k: int| 0 <= k < self.returned().len() implies reach_within(g, self.start, #[trigger] self.returned()[k], d) by {
            assert(self.returned()[k] == self.queue@[k]);
            assert(self.depth@[self.queue@[k] as int] <= self.depth@[self.queue@[p] as int]);
            lemma_reach_mono(g, self.start, self.queue@[k], self.depth@[self.queue@[k] as int], d);
        }
    }

    /// Whether `c` has been handed out already.
    pub fn has_returned(&self, g: &CommitGraph, c: usize) -> (r: bool)
        requires
            self.inv(g@),
            c < g@.len(),
        ensures
            r == self.returned().contains(c),
    {
        self.visited[c]
    }
}

impl CommitGraph {
    /// Decides whether `ancestor` is a strict ancestor of `commit` by a
    /// bidirectional breadth-first search: each step walks one generation of
    /// the history of `commit`, then one generation of the history of
    /// `ancestor`, each side with its own set of visited commits. The answer
    /// is `true` once `ancestor` turns up in the history of `commit`. It is
    /// `false` when the history of `commit` runs out, or when one side
    /// reaches a commit that the other side has already visited, which shows
    /// a common ancestor of the two. The answer is certain to be `true` when
    /// the history of `commit` reaches `ancestor` within some number of steps
    /// in which it reaches no older ancestor of it, as in a linear history.
    pub fn is_descendant_of(&self, commit: usize, ancestor: usize) -> (r: bool)
        requires
            self.wf(),
            commit < self@.len(),
            ancestor < self@.len(),
        ensures
            r ==> is_strict_ancestor(self@, ancestor, commit),
            !r ==> !is_strict_ancestor(self@, ancestor, commit) || exists|x: usize|
                is_strict_ancestor(self@, x, commit) && is_strict_ancestor(self@, x, ancestor),
            (exists|d: nat| met_before_older(self@, commit, ancestor, d)) ==> r,
    {
        let mut mine = Ancestors::new(self, commit);
        let mut theirs = Ancestors::new(self, ancestor);
        loop
            invariant
                self.wf(),
                mine.inv(self@),
                theirs.inv(self@),
                mine.depth_inv(self@),
                theirs.depth_inv(self@),
                mine.origin() == commit,
                theirs.origin() == ancestor,
                ancestor < self@.len(),
                !mine.returned().contains(ancestor),
                mine.count() <= mine.found() <= self@.len(),
                theirs.count() <= theirs.found() <= self@.len(),
            decreases self@.len() - mine.count(),
        {
            // One generation of the history of `commit`.
            let generation_end = mine.found_count();
            if mine.count_handed_out() == generation_end {
                let none = mine.next(self);
                assert(none is None);
                proof {
                    assert forall|d: nat| !met_before_older(self@, commit, ancestor, d) by {
                        if met_before_older(self@, commit, ancestor, d) {
                            lemma_reach_is_ancestor(self@, commit, ancestor, d);
                        }
                    }
                }
                return false;
            }
            while mine.count_handed_out() < generation_end
                invariant
                    self.wf(),
                    mine.inv(self@),
                    theirs.inv(self@),
                    mine.depth_inv(self@),
                    theirs.depth_inv(self@),
                    mine.origin() == commit,
                    theirs.origin() == ancestor,
                    ancestor < self@.len(),
                    !mine.returned().contains(ancestor),
                    mine.count() <= mine.found() <= self@.len(),
                    generation_end <= mine.found(),
                decreases generation_end - mine.count(),
            {
                let ghost before = mine.returned();
                match mine.next(self) {
                    None => {
                        proof {
                            assert forall|d: nat| !met_before_older(self@, commit, ancestor, d) by {
                                if met_before_older(self@, commit, ancestor, d) {
                                    lemma_reach_is_ancestor(self@, commit, ancestor, d);
                                }
                            }
                        }
                        return false;
                    },
                    Some(sa) => {
                        if sa == ancestor {
                            return true;
                        }
                        assert(sa < self@.len()) by {
                            lemma_ancestor_is_older(self@, sa, commit);
                        }
                        assert(!mine.returned().contains(ancestor)) by {
                            if mine.returned().contains(ancestor) {
                                let k = choose|k: int| 0 <= k < mine.returned().len() && mine.returned()[k] == ancestor;
                                if k < before.len() {
                                    assert(before[k] == ancestor);
                                }
                            }
                        }
                        if theirs.has_returned(self, sa) {
                            proof {
                                let k = choose|k: int| 0 <= k < theirs.returned().len() && theirs.returned()[k] == sa;
                                theirs.lemma_inv_facts(self@);
                                assert(is_strict_ancestor(self@, theirs.returned()[k], ancestor));
                                assert forall|d: nat| !met_before_older(self@, commit, ancestor, d) by {
                                    if met_before_older(self@, commit, ancestor, d) {
                                        mine.lemma_returned_within(self@, ancestor, d);
                                        let last = mine.returned().len() - 1;
                                        assert(mine.returned()[last] == sa);
                                        assert(reach_within(self@, commit, mine.returned()[last], d));
                                        assert(!reach_within(self@, commit, sa, d));
                                    }
                                }
                            }
                            return false;
                        }
                    },
                }
            }
            // One generation of the history of `ancestor`.
            let their_end = theirs.found_count();
            while theirs.count_handed_out() < their_end
                invariant
                    self.wf(),
                    mine.inv(self@),
                    theirs.inv(self@),
                    mine.depth_inv(self@),
                    theirs.depth_inv(self@),
                    mine.origin() == commit,
                    theirs.origin() == ancestor,
                    ancestor < self@.len(),
                    !mine.returned().contains(ancestor),
                    mine.count() <= mine.found() <= self@.len(),
                    theirs.count() <= theirs.found() <= self@.len(),
                    their_end <= theirs.found(),
                decreases their_end - theirs.count(),
            {
                match theirs.next(self) {
                    None => {
                        break;
                    },
                    Some(oa) => {
                        assert(oa < self@.len()) by {
                            lemma_ancestor_is_older(self@, oa, ancestor);
                        }
                        if mine.has_returned(self, oa) {
                            proof {
                                let k = choose|k: int| 0 <= k < mine.returned().len() && mine.returned()[k] == oa;
                                mine.lemma_inv_facts(self@);
                                assert(is_strict_ancestor(self@, mine.returned()[k], commit));
                                theirs.lemma_inv_facts(self@);
                                assert(theirs.returned().last() == oa);
                                assert(is_strict_ancestor(self@, oa, ancestor)) by {
                                    assert(theirs.returned()[theirs.returned().len() - 1] == oa);
                                }
                                assert forall|d: nat| !met_before_older(self@, commit, ancestor, d) by {
                                    if met_before_older(self@, commit, ancestor, d) {
                                        mine.lemma_returned_within(self@, ancestor, d);
                                        assert(reach_within(self@, commit, mine.returned()[k], d));
                                        assert(!reach_within(self@, commit, oa, d));
                                    }
                                }
                            }
                            return false;
                        }
                    },
                }
            }
        }
    }
}

/// A commit is never a descendant of itself.
pub proof fn lemma_not_descendant_of_itself(g: &CommitGraph, x: usize)
    requires
        g.wf(),
    ensures
        !is_strict_ancestor(g@, x, x),
{
    lemma_not_own_ancestor(g@, x);
}

/// When `a` descends from another commit `b`, then `b` does not descend from `a`.
pub proof fn lemma_descent_is_one_way(g: &CommitGraph, a: usize, b: usize)
    requires
        g.wf(),
        a != b,
        is_strict_ancestor(g@, b, a),
    ensures
        !is_strict_ancestor(g@, a, b),
{
    lemma_ancestry_antisymmetric(g@, a, b);
}

} // verus!
