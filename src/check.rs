use vstd::prelude::*;
use vstd::string::StrSliceExecFns;
use vstd::string::StringExecFns;

use crate::config::Workspace;
use crate::text::views;
use crate::text::trim;
use crate::text::trim_str;

verus! {

/// How a repository found on disk relates to the workspace.
#[derive(Clone, Copy, Debug, PartialEq, Eq, Structural)]
pub enum ProjectStatus {
    /// A project of the workspace.
    Known,
    /// A project of the workspace whose directory is absent.
    Missing,
    /// A repository that the workspace does not list.
    Unknown,
    /// A repository that the ignore file excludes.
    Ignored,
}

impl ProjectStatus {
    pub fn to_string(&self) -> (r: String)
        ensures
            r@ == match self {
                ProjectStatus::Known => "Known"@,
                ProjectStatus::Missing => "Missing"@,
                ProjectStatus::Unknown => "Unknown"@,
                ProjectStatus::Ignored => "Ignored"@,
            },
    {
        match self {
            ProjectStatus::Known => "Known".to_owned(),
            ProjectStatus::Missing => "Missing".to_owned(),
            ProjectStatus::Unknown => "Unknown".to_owned(),
            ProjectStatus::Ignored => "Ignored".to_owned(),
        }
    }
}

/// The glob pattern that a line of the ignore file gives: none for a
/// comment line; a trimmed line that ends with `/` covers everything below
/// that directory.
pub open spec fn ignore_pattern_of(line: Seq<char>) -> Option<Seq<char>> {
    if line.len() > 0 && line[0] == '#' {
        None
    } else if trim(line).len() > 0 && trim(line).last() == '/' {
        Some(trim(line) + "**"@)
    } else {
        Some(trim(line))
    }
}

pub fn ignore_pattern(line: &str) -> (r: Option<String>)
    ensures
        opt_text(r) == ignore_pattern_of(line@),
{
    if line.unicode_len() > 0 && line.get_char(0) == '#' {
        return None;
    }
    let mut t = trim_str(line);
    let n = t.as_str().unicode_len();
    if n > 0 && t.as_str().get_char(n - 1) == '/' {
        t.append("**");
    }
    Some(t)
}

pub open spec fn opt_text(o: Option<String>) -> Option<Seq<char>> {
    match o {
        Some(s) => Some(s@),
        None => None,
    }
}

/// The status of a repository found on disk: ignored wins over known.
pub fn classify(ignored: bool, known: bool) -> (r: ProjectStatus)
    ensures
        r == if ignored {
            ProjectStatus::Ignored
        } else if known {
            ProjectStatus::Known
        } else {
            ProjectStatus::Unknown
        },
{
    if ignored {
        ProjectStatus::Ignored
    } else if known {
        ProjectStatus::Known
    } else {
        ProjectStatus::Unknown
    }
}

/// Whether the workspace has a project at `path`.
pub fn is_known(workspace: &Workspace, path: &String) -> (r: bool)
    ensures
        r == exists|i: int|
            0 <= i < workspace.projects@.len() && (#[trigger] workspace.projects@[i]).path@ == path@,
{
    let mut i: usize = 0;
    while i < workspace.projects.len()
        invariant
            i <= workspace.projects@.len(),
            forall|k: int| 0 <= k < i ==> (#[trigger] workspace.projects@[k]).path@ != path@,
        decreases workspace.projects@.len() - i,
    {
        if workspace.projects[i].path == *path {
            return true;
        }
        i = i + 1;
    }
    false
}

#[verifier::external_type_specification]
#[verifier::external_body]
pub struct ExPattern(glob::Pattern);

#[verifier::external_type_specification]
#[verifier::external_body]
pub struct ExPatternError(glob::PatternError);

/// Whether `text` is a valid glob pattern.
pub uninterp spec fn glob_valid(text: Seq<char>) -> bool;

/// Whether `name` matches the glob pattern `text`, with the default match
/// options.
pub uninterp spec fn glob_matches(text: Seq<char>, name: Seq<char>) -> bool;

/// Relies on `glob::Pattern::new`: whether a text compiles depends on the
/// text alone.
#[verifier::external_body]
fn compile_glob(text: &str) -> (r: Result<glob::Pattern, glob::PatternError>)
    ensures
        r is Ok <==> glob_valid(text@),
{
    glob::Pattern::new(text)
}

/// A glob pattern of the ignore file, kept with the text it was compiled
/// from. It is only built by `IgnorePattern::new`, so `compiled` is always
/// the compiled form of `text`.
pub struct IgnorePattern {
    text: String,
    compiled: glob::Pattern,
}

/// Relies on `glob::Pattern::matches`: for the pattern compiled from the
/// text of `p`, whether `name` matches depends on that text and `name` alone.
#[verifier::external_body]
fn pattern_matches(p: &IgnorePattern, name: &str) -> (r: bool)
    ensures
        r == glob_matches(p.text(), name@),
{
    p.compiled.matches(name)
}

impl IgnorePattern {
    /// The pattern's text.
    pub closed spec fn text(&self) -> Seq<char> {
        self.text@
    }

    /// Compiles `text`, or gives `None` when it is not a valid pattern.
    pub fn new(text: String) -> (r: Option<IgnorePattern>)
        ensures
            match r {
                Some(p) => glob_valid(text@) && p.text() == text@,
                None => !glob_valid(text@),
            },
    {
        match compile_glob(text.as_str()) {
            Ok(compiled) => Some(IgnorePattern { text, compiled }),
            Err(_) => None,
        }
    }

    /// Whether `name` matches the pattern.
    pub fn matches(&self, name: &str) -> (r: bool)
        ensures
            r == glob_matches(self.text(), name@),
    {
        pattern_matches(self, name)
    }
}

/// The valid patterns of the lines of an ignore file, in order.
pub open spec fn patterns_of(lines: Seq<Seq<char>>) -> Seq<Seq<char>>
    decreases lines.len(),
{
    if lines.len() == 0 {
        Seq::empty()
    } else {
        let rest = patterns_of(lines.drop_last());
        match ignore_pattern_of(lines.last()) {
            Some(t) => if glob_valid(t) {
                rest.push(t)
            } else {
                rest
            },
            None => rest,
        }
    }
}

pub open spec fn pattern_texts(ps: Seq<IgnorePattern>) -> Seq<Seq<char>> {
    ps.map_values(|p: IgnorePattern| p.text())
}

/// The patterns that the lines of an ignore file give; comment lines and
/// invalid patterns are left out.
pub fn read_ignore_patterns(lines: &Vec<String>) -> (r: Vec<IgnorePattern>)
    ensures
        pattern_texts(r@) == patterns_of(views(lines@)),
{
    let mut out: Vec<IgnorePattern> = Vec::new();
    let mut k: usize = 0;
    assert(views(lines@).subrange(0, 0) =~= Seq::<Seq<char>>::empty());
    while k < lines.len()
        invariant
            k <= lines@.len(),
            pattern_texts(out@) == patterns_of(views(lines@).subrange(0, k as int)),
        decreases lines@.len() - k,
    {
        let ghost pre = views(lines@).subrange(0, k as int);
        assert(views(lines@).subrange(0, k as int + 1).drop_last() =~= pre);
        match ignore_pattern(lines[k].as_str()) {
            Some(text) => {
                let ghost t = text@;
                match IgnorePattern::new(text) {
                    Some(p) => {
                        let ghost before = out@;
                        out.push(p);
                        assert(pattern_texts(out@) =~= pattern_texts(before).push(t));
                    },
                    None => {},
                }
            },
            None => {},
        }
        k = k + 1;
    }
    assert(views(lines@).subrange(0, lines@.len() as int) =~= views(lines@));
    out
}

/// Whether `name` matches one of the patterns.
pub fn is_ignored(patterns: &Vec<IgnorePattern>, name: &str) -> (r: bool)
    ensures
        r == exists|i: int| 0 <= i < patterns@.len() && glob_matches((#[trigger] patterns@[i]).text(), name@),
{
    let mut i: usize = 0;
    while i < patterns.len()
        invariant
            i <= patterns@.len(),
            forall|k: int| 0 <= k < i ==> !glob_matches((#[trigger] patterns@[k]).text(), name@),
        decreases patterns@.len() - i,
    {
        if patterns[i].matches(name) {
            return true;
        }
        i = i + 1;
    }
    false
}

/// The status of a repository found on disk at `name`.
pub fn check_status(name: &String, patterns: &Vec<IgnorePattern>, workspace: &Workspace) -> (r:
    ProjectStatus)
    ensures
        r == if exists|i: int|
            0 <= i < patterns@.len() && glob_matches((#[trigger] patterns@[i]).text(), name@) {
            ProjectStatus::Ignored
        } else if exists|i: int|
            0 <= i < workspace.projects@.len() && (#[trigger] workspace.projects@[i]).path@ == name@ {
            ProjectStatus::Known
        } else {
            ProjectStatus::Unknown
        },
{
    classify(is_ignored(patterns, name.as_str()), is_known(workspace, name))
}

} // verus!
