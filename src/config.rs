use vstd::prelude::*;

use crate::order::lemma_lt_irreflexive;
use crate::order::lemma_lt_total;
use crate::order::lemma_lt_transitive;
use crate::order::seq_lt;
use crate::order::str_lt;
use crate::text::before_first;
use crate::text::before_first_str;
use crate::text::lemma_split_nonempty;
use crate::text::split_by;
use crate::text::split_str;
use crate::text::trim;
use crate::text::trim_str;
use crate::text::views;

verus! {

/// Errors of reading the workspace manifest or the user configuration.
#[derive(Debug, PartialEq)]
pub enum ConfigError {
    InvalidConfig(String),
    InternalError(String),
    OpenFile(String),
    SyntaxError(String),
}

/// A named remote of a project.
#[derive(Debug, PartialEq, Eq, Hash)]
pub struct Remote {
    pub url: String,
    pub name: String,
}

impl View for Remote {
    type V = (Seq<char>, Seq<char>);

    open spec fn view(&self) -> (Seq<char>, Seq<char>) {
        (self.url@, self.name@)
    }
}

/// A remote as written in the manifest, where the name may be left out.
#[derive(Debug)]
pub struct MaybeNamedRemote {
    pub url: String,
    pub name: Option<String>,
}

/// A project of the workspace: a directory and the remotes of its repository.
#[derive(Debug, PartialEq, Eq, Hash)]
pub struct Project {
    pub path: String,
    pub main_remote: Remote,
    pub extra_remotes: Vec<Remote>,
}

pub open spec fn remote_views(rs: Seq<Remote>) -> Seq<(Seq<char>, Seq<char>)> {
    rs.map_values(|r: Remote| r@)
}

impl View for Project {
    type V = (Seq<char>, (Seq<char>, Seq<char>), Seq<(Seq<char>, Seq<char>)>);

    open spec fn view(&self) -> (Seq<char>, (Seq<char>, Seq<char>), Seq<(Seq<char>, Seq<char>)>) {
        (self.path@, self.main_remote@, remote_views(self.extra_remotes@))
    }
}

/// The projects of a workspace, ordered by path, one per path.
#[derive(Debug, PartialEq)]
pub struct Workspace {
    pub projects: Vec<Project>,
}

// ---------------------------------------------------------------------------
// The manifest grammar.
//
// A manifest holds one project per line. `#` starts a comment that runs to
// the end of the line; blank lines are skipped. A project line is a path
// followed by `|`-separated remotes, each a URL optionally followed by a name:
//
//     path | url [name] | url [name] | url name ...
//
// The first remote defaults to the name `origin`, the second to `upstream`;
// any further remote must be named.
// ---------------------------------------------------------------------------

pub open spec fn trimmed(ps: Seq<Seq<char>>) -> Seq<Seq<char>> {
    ps.map_values(|p: Seq<char>| trim(p))
}

/// The non-empty elements of `ps`, in order.
pub open spec fn nonblank(ps: Seq<Seq<char>>) -> Seq<Seq<char>>
    decreases ps.len(),
{
    if ps.len() == 0 {
        Seq::empty()
    } else if ps.last().len() == 0 {
        nonblank(ps.drop_last())
    } else {
        nonblank(ps.drop_last()).push(ps.last())
    }
}

/// The words of a remote segment, separated by spaces or tabs.
pub open spec fn words(seg: Seq<char>) -> Seq<Seq<char>> {
    nonblank(trimmed(split_by(seg, ' ', '\t')))
}

/// The trimmed `|`-separated segments of a project line, comment removed.
pub open spec fn segments(line: Seq<char>) -> Seq<Seq<char>> {
    trimmed(split_by(before_first(trim(line), '#'), '|', '|'))
}

pub open spec fn remote_count(line: Seq<char>) -> int {
    segments(line).len() - 1
}

/// The segment of the `k`-th remote of a project line.
pub open spec fn remote_segment(line: Seq<char>, k: int) -> Seq<char> {
    segments(line)[k + 1]
}

pub open spec fn has_url(seg: Seq<char>) -> bool {
    words(seg).len() >= 1
}

pub open spec fn has_name(seg: Seq<char>) -> bool {
    words(seg).len() >= 2
}

pub open spec fn all_have_urls(line: Seq<char>) -> bool {
    forall|k: int| 0 <= k < remote_count(line) ==> #[trigger] has_url(remote_segment(line, k))
}

pub open spec fn extras_named(line: Seq<char>) -> bool {
    forall|k: int| 2 <= k < remote_count(line) ==> #[trigger] has_name(remote_segment(line, k))
}

/// The line describes a project.
pub open spec fn project_ok(line: Seq<char>) -> bool {
    all_have_urls(line) && remote_count(line) >= 1 && extras_named(line)
}

/// The remote that a segment describes, named `default` when it names none.
pub open spec fn remote_model(seg: Seq<char>, default: Seq<char>) -> (Seq<char>, Seq<char>) {
    (words(seg)[0], if has_name(seg) { words(seg)[1] } else { default })
}

pub open spec fn extra_default(i: int) -> Seq<char> {
    if i == 0 {
        "upstream"@
    } else {
        Seq::empty()
    }
}

/// The project that a line describes.
pub open spec fn project_model(line: Seq<char>) -> (
    Seq<char>,
    (Seq<char>, Seq<char>),
    Seq<(Seq<char>, Seq<char>)>,
) {
    (
        segments(line)[0],
        remote_model(remote_segment(line, 0), "origin"@),
        Seq::new(
            (remote_count(line) - 1) as nat,
            |i: int| remote_model(remote_segment(line, i + 1), extra_default(i)),
        ),
    )
}

/// The error that parsing a line which is not a project gives.
pub open spec fn project_error(line: Seq<char>, e: ConfigError) -> bool {
    if !all_have_urls(line) {
        e matches ConfigError::SyntaxError(m) && m@ == "All remotes must specify a URL."@
    } else if remote_count(line) < 1 {
        e matches ConfigError::InvalidConfig(m) && m@ == "At least one remote is required"@
    } else {
        e matches ConfigError::SyntaxError(m) && m@
            == "Remotes past the 2nd must be given an explicit name."@
    }
}

/// The project lines of a manifest: each line without its comment, trimmed,
/// blank ones left out.
pub open spec fn entries(config: Seq<char>) -> Seq<Seq<char>> {
    nonblank(
        split_by(config, '\n', '\n').map_values(|l: Seq<char>| trim(before_first(l, '#'))),
    )
}

/// `ps` is ordered strictly by path.
pub open spec fn sorted_by_path(ps: Seq<Project>) -> bool {
    forall|i: int, j: int| 0 <= i < j < ps.len() ==> seq_lt(#[trigger] ps[i].path@, #[trigger] ps[j].path@)
}

/// No element of `ps` before index `i` has the path of `ps[i]`.
pub open spec fn first_with_path(ps: Seq<Project>, i: int) -> bool {
    forall|j: int| 0 <= j < i ==> #[trigger] ps[j].path@ != ps[i].path@
}

/// No line before index `i` describes a project with the path of line `i`.
pub open spec fn first_line_with_path(ls: Seq<Seq<char>>, i: int) -> bool {
    forall|j: int| 0 <= j < i ==> #[trigger] segments(ls[j])[0] != segments(ls[i])[0]
}

proof fn lemma_nonblank_push(ps: Seq<Seq<char>>, p: Seq<char>)
    ensures
        nonblank(ps.push(p)) == if p.len() == 0 {
            nonblank(ps)
        } else {
            nonblank(ps).push(p)
        },
{
    assert(ps.push(p).drop_last() =~= ps);
}

proof fn lemma_trimmed_push(ps: Seq<Seq<char>>, p: Seq<char>)
    ensures
        trimmed(ps.push(p)) == trimmed(ps).push(trim(p)),
{
    assert(trimmed(ps.push(p)) =~= trimmed(ps).push(trim(p)));
}

/// The words of a segment.
fn split_words(seg: &str) -> (r: Vec<String>)
    ensures
        views(r@) == words(seg@),
{
    let pieces = split_str(seg, ' ', '\t');
    let mut out: Vec<String> = Vec::new();
    let mut k: usize = 0;
    assert(views(pieces@).subrange(0, 0) =~= Seq::<Seq<char>>::empty());
    assert(views(out@) =~= nonblank(trimmed(views(pieces@).subrange(0, 0))));
    while k < pieces.len()
        invariant
            k <= pieces@.len(),
            views(pieces@) == split_by(seg@, ' ', '\t'),
            views(out@) == nonblank(trimmed(views(pieces@).subrange(0, k as int))),
        decreases pieces@.len() - k,
    {
        let t = trim_str(pieces[k].as_str());
        proof {
            let pre = views(pieces@).subrange(0, k as int);
            assert(views(pieces@).subrange(0, k as int + 1) =~= pre.push(pieces@[k as int]@));
            lemma_trimmed_push(pre, pieces@[k as int]@);
            lemma_nonblank_push(trimmed(pre), t@);
        }
        if !t.as_str().is_empty() {
            let ghost before = out@;
            out.push(t);
            assert(views(out@) =~= views(before).push(t@));
        }
        k = k + 1;
    }
    assert(views(pieces@).subrange(0, pieces@.len() as int) =~= views(pieces@));
    out
}

/// The trimmed `|`-separated segments of a line, comment removed.
fn split_segments(line: &str) -> (r: Vec<String>)
    ensures
        views(r@) == segments(line@),
        r@.len() >= 1,
{
    let t = trim_str(line);
    let u = before_first_str(t.as_str(), '#');
    let raw = split_str(u.as_str(), '|', '|');
    let mut segs: Vec<String> = Vec::new();
    let mut k: usize = 0;
    while k < raw.len()
        invariant
            k <= raw@.len(),
            views(raw@) == split_by(before_first(trim(line@), '#'), '|', '|'),
            views(segs@) == trimmed(views(raw@).subrange(0, k as int)),
        decreases raw@.len() - k,
    {
        let s = trim_str(raw[k].as_str());
        let ghost before = segs@;
        segs.push(s);
        proof {
            let pre = views(raw@).subrange(0, k as int);
            assert(views(raw@).subrange(0, k as int + 1) =~= pre.push(raw@[k as int]@));
            lemma_trimmed_push(pre, raw@[k as int]@);
            assert(views(segs@) =~= views(before).push(s@));
        }
        k = k + 1;
    }
    proof {
        lemma_split_nonempty(before_first(trim(line@), '#'), '|', '|');
    }
    assert(views(raw@).subrange(0, raw@.len() as int) =~= views(raw@));
    segs
}

impl MaybeNamedRemote {
    /// Reads a remote segment: a URL, optionally followed by a name.
    pub fn from_str(segment: &str) -> (r: Result<MaybeNamedRemote, ConfigError>)
        ensures
            match r {
                Ok(m) => {
                    &&& has_url(segment@)
                    &&& m.url@ == words(segment@)[0]
                    &&& match m.name {
                        Some(n) => has_name(segment@) && n@ == words(segment@)[1],
                        None => !has_name(segment@),
                    }
                },
                Err(e) => !has_url(segment@) && (e matches ConfigError::SyntaxError(m) && m@
                    == "All remotes must specify a URL."@),
            },
    {
        let mut ws = split_words(segment);
        if ws.len() == 0 {
            return Err(ConfigError::SyntaxError("All remotes must specify a URL.".to_owned()));
        }
        let ghost all = views(ws@);
        let url = ws.remove(0);
        let name = if ws.len() > 0 {
            Some(ws.remove(0))
        } else {
            None
        };
        assert(all[0] == url@);
        Ok(MaybeNamedRemote { url, name })
    }

    /// The named remote, or an error when no name was given.
    pub fn into_named(self) -> (r: Result<Remote, String>)
        ensures
            match r {
                Ok(remote) => (self.name matches Some(n) && remote.url == self.url && remote.name
                    == n),
                Err(msg) => self.name is None && msg@
                    == "Cannot create a named remote from a remote without a name."@,
            },
    {
        match self.name {
            Some(name) => Ok(Remote { url: self.url, name }),
            None => Err("Cannot create a named remote from a remote without a name.".to_owned()),
        }
    }

    /// The named remote, called `default_name` when no name was given.
    pub fn into_named_or(self, default_name: &str) -> (r: Remote)
        ensures
            r.url == self.url,
            r.name@ == match self.name {
                Some(n) => n@,
                None => default_name@,
            },
    {
        match self.name {
            Some(name) => Remote { url: self.url, name },
            None => Remote { url: self.url, name: default_name.to_owned() },
        }
    }
}

/// `m` is the remote that segment `seg` describes.
pub open spec fn describes(m: MaybeNamedRemote, seg: Seq<char>) -> bool {
    &&& has_url(seg)
    &&& m.url@ == words(seg)[0]
    &&& match m.name {
        Some(n) => has_name(seg) && n@ == words(seg)[1],
        None => !has_name(seg),
    }
}

impl Project {
    /// The main remote, then the extra remotes in order.
    pub fn remotes(&self) -> (r: Vec<&Remote>)
        ensures
            r@.len() == self.extra_remotes@.len() + 1,
            *r@[0] == self.main_remote,
            forall|i: int| 0 <= i < self.extra_remotes@.len() ==> *r@[i + 1] == self.extra_remotes@[i],
    {
        let mut result: Vec<&Remote> = Vec::new();
        result.push(&self.main_remote);
        let mut i: usize = 0;
        while i < self.extra_remotes.len()
            invariant
                i <= self.extra_remotes@.len(),
                result@.len() == i + 1,
                *result@[0] == self.main_remote,
                forall|k: int| 0 <= k < i ==> *result@[k + 1] == self.extra_remotes@[k],
            decreases self.extra_remotes@.len() - i,
        {
            result.push(&self.extra_remotes[i]);
            i = i + 1;
        }
        result
    }

    /// Reads a project line of the manifest.
    pub fn from_str(line: &str) -> (r: Result<Project, ConfigError>)
        ensures
            match r {
                Ok(p) => project_ok(line@) && p@ == project_model(line@),
                Err(e) => !project_ok(line@) && project_error(line@, e),
            },
    {
        let segs = split_segments(line);
        let path = segs[0].clone();
        let mut maybes: Vec<MaybeNamedRemote> = Vec::new();
        let mut k: usize = 1;
        while k < segs.len()
            invariant
                1 <= k <= segs@.len(),
                views(segs@) == segments(line@),
                maybes@.len() == k - 1,
                forall|j: int| 0 <= j < k - 1 ==> describes(#[trigger] maybes@[j], remote_segment(line@, j)),
            decreases segs@.len() - k,
        {
            match MaybeNamedRemote::from_str(segs[k].as_str()) {
                Ok(m) => {
                    maybes.push(m);
                },
                Err(e) => {
                    proof {
                        assert(!has_url(remote_segment(line@, k - 1)));
                    }
                    return Err(e);
                },
            }
            k = k + 1;
        }
        assert(all_have_urls(line@)) by {
            assert forall|j: int| 0 <= j < remote_count(line@) implies #[trigger] has_url(remote_segment(line@, j)) by {
                assert(describes(maybes@[j], remote_segment(line@, j)));
            }
        }
        if maybes.len() == 0 {
            return Err(ConfigError::InvalidConfig("At least one remote is required".to_owned()));
        }
        let ghost all = maybes@;
        let first = maybes.remove(0);
        assert(describes(all[0], remote_segment(line@, 0)));
        let main_remote = first.into_named_or("origin");
        let mut extra_remotes: Vec<Remote> = Vec::new();
        if maybes.len() > 0 {
            let second = maybes.remove(0);
            assert(describes(all[1], remote_segment(line@, 1)));
            extra_remotes.push(second.into_named_or("upstream"));
        }
        let ghost n = all.len() as int;
        while maybes.len() > 0
            invariant
                n == all.len(),
                n == remote_count(line@),
                maybes@ == all.skip(n - maybes@.len()),
                extra_remotes@.len() + 1 + maybes@.len() == n,
                forall|j: int| 0 <= j < n ==> describes(#[trigger] all[j], remote_segment(line@, j)),
                forall|i: int| 0 <= i < extra_remotes@.len() ==> #[trigger] extra_remotes@[i]@
                    == remote_model(remote_segment(line@, i + 1), extra_default(i)),
                forall|j: int| 2 <= j < n - maybes@.len() ==> #[trigger] has_name(remote_segment(line@, j)),
                maybes@.len() == 0 || n - maybes@.len() >= 2,
                all_have_urls(line@),
            decreases maybes@.len(),
        {
            let ghost j = n - maybes@.len();
            let m = maybes.remove(0);
            assert(m == all[j]);
            assert(maybes@ =~= all.skip(n - maybes@.len()));
            match m.into_named() {
                Ok(remote) => {
                    extra_remotes.push(remote);
                },
                Err(_) => {
                    proof {
                        assert(!has_name(remote_segment(line@, j)));
                        assert(2 <= j < remote_count(line@));
                        assert(!extras_named(line@));
                    }
                    return Err(
                        ConfigError::SyntaxError(
                            "Remotes past the 2nd must be given an explicit name.".to_owned(),
                        ),
                    );
                },
            }
        }
        let p = Project { path, main_remote, extra_remotes };
        assert(p@.2 =~= project_model(line@).2);
        Ok(p)
    }
}


proof fn lemma_insert_sorted(old: Seq<Project>, k: int, p: Project)
    requires
        0 <= k <= old.len(),
        sorted_by_path(old),
        forall|m: int| 0 <= m < k ==> seq_lt(#[trigger] old[m].path@, p.path@),
        forall|m: int| k <= m < old.len() ==> seq_lt(p.path@, #[trigger] old[m].path@),
    ensures
        sorted_by_path(old.insert(k, p)),
{
    old.insert_ensures(k, p);
    let new = old.insert(k, p);
    assert forall|i: int, j: int| 0 <= i < j < new.len() implies seq_lt(#[trigger] new[i].path@, #[trigger] new[j].path@) by {
        let oi = if i < k { i } else { i - 1 };
        let oj = if j < k { j } else { j - 1 };
        if i < k {
            assert(new[i] == old[i]);
        } else if i > k {
            assert(new[i] == old[i - 1]);
        }
        if j < k {
            assert(new[j] == old[j]);
        } else if j > k {
            assert(new[j] == old[j - 1]);
        }
        if i != k && j != k {
            assert(seq_lt(old[oi].path@, old[oj].path@));
        } else if i == k {
            assert(seq_lt(p.path@, old[oj].path@));
        } else {
            assert(seq_lt(old[oi].path@, p.path@));
        }
    }
}

/// `x` is, among the first `n` elements of `ps`, the first with its path.
#[verifier::opaque]
pub open spec fn is_first_of(ps: Seq<Project>, n: int, x: Project) -> bool {
    exists|i: int| 0 <= i < n && first_with_path(ps, i) && ps[i] == x
}

/// `ws` holds a project equal to `x`.
#[verifier::opaque]
pub open spec fn holds(ws: Seq<Project>, x: Project) -> bool {
    exists|k: int| 0 <= k < ws.len() && ws[k] == x
}

/// `ws` holds a project with path `path`.
#[verifier::opaque]
pub open spec fn has_path(ws: Seq<Project>, path: Seq<char>) -> bool {
    exists|k: int| 0 <= k < ws.len() && ws[k].path@ == path
}

/// `ws` holds, ordered by path, the first project of each path of `ps`.
pub open spec fn collects(ws: Seq<Project>, ps: Seq<Project>) -> bool {
    &&& sorted_by_path(ws)
    &&& forall|k: int| 0 <= k < ws.len() ==> is_first_of(ps, ps.len() as int, #[trigger] ws[k])
    &&& forall|i: int| 0 <= i < ps.len() && first_with_path(ps, i) ==> holds(ws, #[trigger] ps[i])
}

/// `m` is the project of the first line of its path in `ls`.
#[verifier::opaque]
pub open spec fn is_first_line_model(
    ls: Seq<Seq<char>>,
    m: (Seq<char>, (Seq<char>, Seq<char>), Seq<(Seq<char>, Seq<char>)>),
) -> bool {
    exists|i: int| 0 <= i < ls.len() && first_line_with_path(ls, i) && project_model(ls[i]) == m
}

/// `ws` holds a project whose view is `m`.
#[verifier::opaque]
pub open spec fn holds_model(
    ws: Seq<Project>,
    m: (Seq<char>, (Seq<char>, Seq<char>), Seq<(Seq<char>, Seq<char>)>),
) -> bool {
    exists|k: int| 0 <= k < ws.len() && ws[k]@ == m
}

/// `ws` holds, ordered by path, the project of the first line of each path.
pub open spec fn collects_lines(ws: Seq<Project>, ls: Seq<Seq<char>>) -> bool {
    &&& sorted_by_path(ws)
    &&& forall|k: int| 0 <= k < ws.len() ==> is_first_line_model(ls, #[trigger] ws[k]@)
    &&& forall|i: int|
        0 <= i < ls.len() && first_line_with_path(ls, i) ==> holds_model(ws, project_model(#[trigger] ls[i]))
}

/// After `done` projects of `ps`, `out` holds, ordered by path, the first
/// project of each path seen so far.
pub open spec fn collected_prefix(out: Seq<Project>, ps: Seq<Project>, done: int) -> bool {
    &&& 0 <= done <= ps.len()
    &&& sorted_by_path(out)
    &&& forall|k: int| 0 <= k < out.len() ==> is_first_of(ps, done, #[trigger] out[k])
    &&& forall|i: int| 0 <= i < done && first_with_path(ps, i) ==> holds(out, #[trigger] ps[i])
    &&& forall|i: int| 0 <= i < done ==> has_path(out, #[trigger] ps[i].path@)
}

proof fn lemma_collect_duplicate(out: Seq<Project>, ps: Seq<Project>, done: int, k: int)
    requires
        collected_prefix(out, ps, done),
        done < ps.len(),
        0 <= k < out.len(),
        out[k].path@ == ps[done].path@,
    ensures
        collected_prefix(out, ps, done + 1),
{
    reveal(is_first_of);
    reveal(has_path);
    assert(is_first_of(ps, done, out[k]));
    let i = choose|i: int| 0 <= i < done && first_with_path(ps, i) && ps[i] == out[k];
    assert(ps[i].path@ == ps[done].path@);
    assert(!first_with_path(ps, done));
    assert(has_path(out, ps[done].path@));
    assert forall|kk: int| 0 <= kk < out.len() implies is_first_of(ps, done + 1, #[trigger] out[kk]) by {
        assert(is_first_of(ps, done, out[kk]));
        let i = choose|i: int| 0 <= i < done && first_with_path(ps, i) && ps[i] == out[kk];
    }
}

proof fn lemma_collect_insert(out: Seq<Project>, ps: Seq<Project>, done: int, k: int)
    requires
        collected_prefix(out, ps, done),
        done < ps.len(),
        0 <= k <= out.len(),
        forall|m: int| 0 <= m < k ==> seq_lt(#[trigger] out[m].path@, ps[done].path@),
        k == out.len() || (out[k].path@ != ps[done].path@ && !seq_lt(out[k].path@, ps[done].path@)),
    ensures
        collected_prefix(out.insert(k, ps[done]), ps, done + 1),
{
    reveal(is_first_of);
    reveal(holds);
    reveal(has_path);
    let p = ps[done];
    assert forall|m: int| k <= m < out.len() implies seq_lt(p.path@, #[trigger] out[m].path@) by {
        lemma_lt_total(out[k].path@, p.path@);
        if m > k {
            lemma_lt_transitive(p.path@, out[k].path@, out[m].path@);
        }
    }
    assert forall|j: int| 0 <= j < done implies #[trigger] ps[j].path@ != ps[done].path@ by {
        assert(has_path(out, ps[j].path@));
        let kk = choose|kk: int| 0 <= kk < out.len() && out[kk].path@ == ps[j].path@;
        if ps[j].path@ == ps[done].path@ {
            lemma_lt_irreflexive(p.path@);
            if kk >= k {
                assert(seq_lt(p.path@, out[kk].path@));
            } else {
                assert(seq_lt(out[kk].path@, p.path@));
            }
        }
    }
    assert(first_with_path(ps, done));
    lemma_insert_sorted(out, k, p);
    out.insert_ensures(k, p);
    let new = out.insert(k, p);
    assert forall|kk: int| 0 <= kk < new.len() implies is_first_of(ps, done + 1, #[trigger] new[kk]) by {
        if kk < k {
            assert(new[kk] == out[kk]);
            assert(is_first_of(ps, done, out[kk]));
            let i = choose|i: int| 0 <= i < done && first_with_path(ps, i) && ps[i] == out[kk];
        } else if kk > k {
            assert(new[kk] == out[kk - 1]);
            assert(is_first_of(ps, done, out[kk - 1]));
            let i = choose|i: int| 0 <= i < done && first_with_path(ps, i) && ps[i] == out[kk - 1];
        } else {
            assert(new[kk] == ps[done]);
        }
    }
    assert forall|i: int| 0 <= i < done + 1 && first_with_path(ps, i) implies holds(new, #[trigger] ps[i]) by {
        if i < done {
            assert(holds(out, ps[i]));
            let kk = choose|kk: int| 0 <= kk < out.len() && out[kk] == ps[i];
            if kk < k {
                assert(new[kk] == ps[i]);
            } else {
                assert(new[kk + 1] == ps[i]);
            }
        } else {
            assert(new[k] == ps[i]);
        }
    }
    assert forall|i: int| 0 <= i < done + 1 implies has_path(new, #[trigger] ps[i].path@) by {
        if i < done {
            assert(has_path(out, ps[i].path@));
            let kk = choose|kk: int| 0 <= kk < out.len() && out[kk].path@ == ps[i].path@;
            if kk < k {
                assert(new[kk].path@ == ps[i].path@);
            } else {
                assert(new[kk + 1].path@ == ps[i].path@);
            }
        } else {
            assert(new[k].path@ == ps[i].path@);
        }
    }
}

impl Workspace {
    /// The workspace of the given projects: ordered by path, and where two
    /// projects share a path, the first of them.
    pub fn from(projects: Vec<Project>) -> (r: Workspace)
        ensures
            collects(r.projects@, projects@),
    {
        let ghost ps = projects@;
        let mut rest = projects;
        let mut out: Vec<Project> = Vec::new();
        while rest.len() > 0
            invariant
                rest@.len() <= ps.len(),
                rest@ == ps.skip(ps.len() - rest@.len()),
                collected_prefix(out@, ps, ps.len() - rest@.len()),
            decreases rest@.len(),
        {
            let ghost done = ps.len() - rest@.len();
            let p = rest.remove(0);
            assert(p == ps[done]);
            assert(rest@ =~= ps.skip(ps.len() - rest@.len()));
            let mut k: usize = 0;
            while k < out.len() && str_lt(out[k].path.as_str(), p.path.as_str())
                invariant
                    k <= out@.len(),
                    forall|m: int| 0 <= m < k ==> seq_lt(#[trigger] out@[m].path@, p.path@),
                decreases out@.len() - k,
            {
                k = k + 1;
            }
            if k < out.len() && out[k].path == p.path {
                proof {
                    lemma_collect_duplicate(out@, ps, done, k as int);
                }
            } else {
                proof {
                    lemma_collect_insert(out@, ps, done, k as int);
                }
                out.insert(k, p);
            }
        }
        Workspace { projects: out }
    }

    /// Reads a workspace manifest.
    pub fn from_str(config: &str) -> (r: Result<Workspace, ConfigError>)
        ensures
            match r {
                Ok(ws) => {
                    &&& forall|j: int| 0 <= j < entries(config@).len() ==> #[trigger] project_ok(entries(config@)[j])
                    &&& collects_lines(ws.projects@, entries(config@))
                },
                Err(e) => exists|j: int|
                    0 <= j < entries(config@).len() && !project_ok(#[trigger] entries(config@)[j])
                        && (forall|i: int| 0 <= i < j ==> project_ok(entries(config@)[i]))
                        && project_error(entries(config@)[j], e),
            },
    {
        let lines = split_str(config, '\n', '\n');
        let ghost f = |l: Seq<char>| trim(before_first(l, '#'));
        let mut projects: Vec<Project> = Vec::new();
        let mut k: usize = 0;
        assert(views(lines@).subrange(0, 0).map_values(f) =~= Seq::<Seq<char>>::empty());
        while k < lines.len()
            invariant
                k <= lines@.len(),
                f == (|l: Seq<char>| trim(before_first(l, '#'))),
                views(lines@) == split_by(config@, '\n', '\n'),
                projects@.len() == nonblank(views(lines@).subrange(0, k as int).map_values(f)).len(),
                forall|j: int|
                    0 <= j < projects@.len() ==> project_ok(
                        #[trigger] nonblank(views(lines@).subrange(0, k as int).map_values(f))[j],
                    ) && projects@[j]@ == project_model(
                        nonblank(views(lines@).subrange(0, k as int).map_values(f))[j],
                    ),
            decreases lines@.len() - k,
        {
            let u = before_first_str(lines[k].as_str(), '#');
            let t = trim_str(u.as_str());
            let ghost pre = views(lines@).subrange(0, k as int).map_values(f);
            proof {
                assert(views(lines@).subrange(0, k as int + 1).map_values(f) =~= pre.push(t@));
                lemma_nonblank_push(pre, t@);
            }
            if !t.as_str().is_empty() {
                match Project::from_str(t.as_str()) {
                    Ok(p) => {
                        projects.push(p);
                    },
                    Err(e) => {
                        proof {
                            let ents = nonblank(pre.push(t@));
                            let j = projects@.len() as int;
                            assert(ents == nonblank(pre).push(t@));
                            assert(ents[j] == t@);
                            lemma_entries_prefix(config@, lines@, k as int + 1);
                            assert(entries(config@)[j] == t@);
                            assert forall|i: int| 0 <= i < j implies project_ok(entries(config@)[i]) by {
                                assert(entries(config@)[i] == ents[i]);
                                assert(ents[i] == nonblank(pre)[i]);
                            }
                        }
                        return Err(e);
                    },
                }
            }
            k = k + 1;
        }
        assert(views(lines@).subrange(0, lines@.len() as int) =~= views(lines@));
        let ghost ents = entries(config@);
        assert(ents == nonblank(views(lines@).map_values(f)));
        let ghost ps = projects@;
        let ws = Workspace::from(projects);
        proof {
            assert forall|i: int| 0 <= i < ps.len() implies first_with_path(ps, i) == first_line_with_path(ents, i) by {
                assert(ps[i].path@ == segments(ents[i])[0]);
                if !first_with_path(ps, i) {
                    let j = choose|j: int| 0 <= j < i && ps[j].path@ == ps[i].path@;
                    assert(ps[j].path@ == segments(ents[j])[0]);
                }
                if !first_line_with_path(ents, i) {
                    let j = choose|j: int| 0 <= j < i && #[trigger] segments(ents[j])[0] == segments(ents[i])[0];
                    assert(ps[j].path@ == segments(ents[j])[0]);
                }
            }
            reveal(is_first_of);
            reveal(holds);
            reveal(is_first_line_model);
            reveal(holds_model);
            assert forall|k: int| 0 <= k < ws.projects@.len() implies is_first_line_model(ents, #[trigger] ws.projects@[k]@) by {
                assert(is_first_of(ps, ps.len() as int, ws.projects@[k]));
                let i = choose|i: int| 0 <= i < ps.len() && first_with_path(ps, i) && ps[i] == ws.projects@[k];
                assert(first_line_with_path(ents, i));
                assert(project_model(ents[i]) == ws.projects@[k]@);
            }
            assert forall|i: int| 0 <= i < ents.len() && first_line_with_path(ents, i) implies holds_model(ws.projects@, project_model(#[trigger] ents[i])) by {
                assert(first_with_path(ps, i));
                assert(holds(ws.projects@, ps[i]));
                let k = choose|k: int| 0 <= k < ws.projects@.len() && ws.projects@[k] == ps[i];
                assert(ws.projects@[k]@ == project_model(ents[i]));
            }
        }
        Ok(ws)
    }
}

proof fn lemma_entries_prefix(config: Seq<char>, lines: Seq<String>, k: int)
    requires
        views(lines) == split_by(config, '\n', '\n'),
        0 <= k <= lines.len(),
    ensures
        forall|j: int|
            0 <= j < nonblank(views(lines).subrange(0, k).map_values(|l: Seq<char>| trim(before_first(l, '#')))).len()
                ==> #[trigger] entries(config)[j] == nonblank(
                views(lines).subrange(0, k).map_values(|l: Seq<char>| trim(before_first(l, '#'))),
            )[j],
        nonblank(views(lines).subrange(0, k).map_values(|l: Seq<char>| trim(before_first(l, '#')))).len()
            <= entries(config).len(),
    decreases lines.len() - k,
{
    let f = |l: Seq<char>| trim(before_first(l, '#'));
    if k == lines.len() {
        assert(views(lines).subrange(0, k) =~= views(lines));
    } else {
        lemma_entries_prefix(config, lines, k + 1);
        let pre = views(lines).subrange(0, k).map_values(f);
        assert(views(lines).subrange(0, k + 1).map_values(f) =~= pre.push(f(lines[k]@)));
        lemma_nonblank_push(pre, f(lines[k]@));
    }
}

/// Reads a workspace manifest.
pub fn parse(input: &str) -> (r: Result<Workspace, ConfigError>)
    ensures
        match r {
            Ok(ws) => {
                &&& forall|j: int| 0 <= j < entries(input@).len() ==> #[trigger] project_ok(entries(input@)[j])
                &&& collects_lines(ws.projects@, entries(input@))
            },
            Err(e) => exists|j: int|
                0 <= j < entries(input@).len() && !project_ok(#[trigger] entries(input@)[j])
                    && (forall|i: int| 0 <= i < j ==> project_ok(entries(input@)[i]))
                    && project_error(entries(input@)[j], e),
        },
{
    Workspace::from_str(input)
}

} // verus!
