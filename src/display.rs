use vstd::prelude::*;
use vstd::string::StrSliceExecFns;
use vstd::string::StringExecFns;

use crate::status::BranchStatus;
use crate::status::DirtyState;

verus! {

/// The palette entry that a piece of output is painted with.
#[derive(Clone, Copy, Debug, PartialEq, Eq, Structural)]
pub enum Paint {
    Plain,
    Branch,
    Clean,
    Cloning,
    Dirty,
    Error,
    Missing,
    Repo,
}

/// A piece of output text and how to paint it.
#[derive(Debug, PartialEq, Eq)]
pub struct Segment {
    pub paint: Paint,
    pub text: String,
}

pub open spec fn seg_view(s: Segment) -> (Paint, Seq<char>) {
    (s.paint, s.text@)
}

pub open spec fn segs_view(v: Seq<Segment>) -> Seq<(Paint, Seq<char>)> {
    v.map_values(|s: Segment| seg_view(s))
}

/// How a branch stands towards its upstream.
pub open spec fn sync_description(s: BranchStatus) -> (Paint, Seq<char>) {
    match s.upstream_name {
        Some(u) => if s.fast_forwarded {
            (Paint::Cloning, "Fast-forwarded"@)
        } else if s.upstream_fetched {
            (Paint::Cloning, "New upstream commits"@)
        } else {
            match s.in_sync {
                Some(true) => (Paint::Clean, "Clean"@),
                Some(false) => (Paint::Dirty, "Not in sync with "@ + u@),
                None => (Paint::Missing, "No remote branch "@ + u@),
            }
        },
        None => (Paint::Missing, "No upstream set"@),
    }
}

fn segment(paint: Paint, text: &str) -> (r: Segment)
    ensures
        r.paint == paint,
        r.text@ == text@,
{
    Segment { paint, text: text.to_owned() }
}

pub fn describe_sync_status(s: &BranchStatus) -> (r: Segment)
    ensures
        seg_view(r) == sync_description(*s),
{
    match &s.upstream_name {
        Some(u) => {
            if s.fast_forwarded {
                segment(Paint::Cloning, "Fast-forwarded")
            } else if s.upstream_fetched {
                segment(Paint::Cloning, "New upstream commits")
            } else {
                match s.in_sync {
                    Some(true) => segment(Paint::Clean, "Clean"),
                    Some(false) => {
                        let mut t = "Not in sync with ".to_owned();
                        t.append(u.as_str());
                        Segment { paint: Paint::Dirty, text: t }
                    },
                    None => {
                        let mut t = "No remote branch ".to_owned();
                        t.append(u.as_str());
                        Segment { paint: Paint::Missing, text: t }
                    },
                }
            }
        },
        None => segment(Paint::Missing, "No upstream set"),
    }
}

/// The description of a branch: for the checked-out branch a dirty working
/// tree, after a note of newly fetched commits; otherwise the upstream state.
pub open spec fn status_description(s: BranchStatus) -> Seq<(Paint, Seq<char>)> {
    let prefix = if s.upstream_fetched {
        seq![(Paint::Cloning, "New upstream commits"@), (Paint::Plain, " - "@)]
    } else {
        Seq::empty()
    };
    if s.is_head && s.dirty == DirtyState::UncommittedChanges {
        prefix.push((Paint::Dirty, "Dirty (Uncommitted changes)"@))
    } else if s.is_head && s.dirty == DirtyState::UntrackedFiles {
        prefix.push((Paint::Dirty, "Dirty (Untracked files)"@))
    } else {
        seq![sync_description(s)]
    }
}

pub fn describe_status(s: &BranchStatus) -> (r: Vec<Segment>)
    ensures
        segs_view(r@) == status_description(*s),
{
    if s.is_head && s.dirty != DirtyState::Clean {
        let mut out: Vec<Segment> = Vec::new();
        if s.upstream_fetched {
            out.push(segment(Paint::Cloning, "New upstream commits"));
            out.push(segment(Paint::Plain, " - "));
        }
        if s.dirty == DirtyState::UncommittedChanges {
            out.push(segment(Paint::Dirty, "Dirty (Uncommitted changes)"));
        } else {
            out.push(segment(Paint::Dirty, "Dirty (Untracked files)"));
        }
        assert(segs_view(out@) =~= status_description(*s));
        out
    } else {
        let out = vec![describe_sync_status(s)];
        assert(segs_view(out@) =~= status_description(*s));
        out
    }
}

/// `s` cut to `length` characters, the last replaced by an ellipsis, when
/// it has `length` characters or more.
pub open spec fn ellipsized(s: Seq<char>, length: nat) -> Seq<char> {
    if s.len() >= length {
        s.subrange(0, length - 1) + seq!['\u{2026}']
    } else {
        s
    }
}

pub fn ellipsize(s: &str, length: usize) -> (r: String)
    requires
        length >= 1,
    ensures
        r@ == ellipsized(s@, length as nat),
{
    let n = s.unicode_len();
    if n >= length {
        let mut t = s.substring_char(0, length - 1).to_owned();
        proof {
            reveal_strlit("\u{2026}");
        }
        t.append("\u{2026}");
        t
    } else {
        s.to_owned()
    }
}

/// `s` padded with spaces to `width` characters.
pub open spec fn padded(s: Seq<char>, width: nat) -> Seq<char> {
    if s.len() >= width {
        s
    } else {
        s + Seq::new((width - s.len()) as nat, |i: int| ' ')
    }
}

pub fn pad(s: String, width: usize) -> (r: String)
    ensures
        r@ == padded(s@, width as nat),
{
    let mut t = s;
    let ghost orig = t@;
    let mut n = t.as_str().unicode_len();
    while n < width
        invariant
            n == t@.len(),
            orig.len() <= n,
            n <= width || orig.len() >= width,
            orig.len() < width ==> t@ == orig + Seq::new((n - orig.len()) as nat, |i: int| ' '),
            orig.len() >= width ==> t@ == orig,
        decreases width - n,
    {
        proof {
            reveal_strlit(" ");
        }
        t.append(" ");
        n = n + 1;
        assert(t@ =~= orig + Seq::new((n - orig.len()) as nat, |i: int| ' '));
    }
    proof {
        if orig.len() < width {
            assert(n == width);
        }
    }
    t
}

/// The line that shows one branch: a `*` for the checked-out branch, the
/// name (shortened to 23 characters) in a column of 25, and the description.
pub open spec fn branch_line(s: BranchStatus) -> Seq<(Paint, Seq<char>)> {
    seq![
        (Paint::Plain, if s.is_head { "  * "@ } else { "    "@ }),
        (Paint::Branch, padded(ellipsized(s.name@, 23) + " :"@, 25)),
        (Paint::Plain, " "@),
    ] + status_description(s)
}

pub fn describe_full(s: &BranchStatus) -> (r: Vec<Segment>)
    ensures
        segs_view(r@) == branch_line(*s),
{
    let mut out: Vec<Segment> = Vec::new();
    out.push(segment(Paint::Plain, if s.is_head { "  * " } else { "    " }));
    let mut name = ellipsize(s.name.as_str(), 23);
    name.append(" :");
    out.push(Segment { paint: Paint::Branch, text: pad(name, 25) });
    out.push(segment(Paint::Plain, " "));
    let mut rest = describe_status(s);
    let ghost first = out@;
    let ghost rv = rest@;
    out.append(&mut rest);
    assert(out@ =~= first + rv);
    assert(segs_view(out@) =~= segs_view(first) + segs_view(rv));
    out
}

} // verus!
