use gws::display::describe_full;
use gws::display::describe_status;
use gws::display::ellipsize;
use gws::display::Paint;
use gws::display::Segment;
use gws::status::BranchStatus;
use gws::status::DirtyState;

fn seg(paint: Paint, text: &str) -> Segment {
    Segment {
        paint,
        text: text.to_string(),
    }
}

fn status(upstream: Option<&str>, dirty: DirtyState, is_head: bool, in_sync: Option<bool>, fetched: bool) -> BranchStatus {
    BranchStatus {
        name: "master".to_string(),
        upstream_name: upstream.map(str::to_string),
        dirty,
        is_head,
        in_sync,
        upstream_fetched: fetched,
        fast_forwarded: false,
    }
}

#[test]
fn sync_states_are_described() {
    assert_eq!(
        describe_status(&status(Some("origin/master"), DirtyState::Clean, true, Some(true), false)),
        vec![seg(Paint::Clean, "Clean")]
    );
    assert_eq!(
        describe_status(&status(Some("origin/master"), DirtyState::Clean, false, Some(false), false)),
        vec![seg(Paint::Dirty, "Not in sync with origin/master")]
    );
    assert_eq!(
        describe_status(&status(Some("origin/master"), DirtyState::Clean, false, None, false)),
        vec![seg(Paint::Missing, "No remote branch origin/master")]
    );
    assert_eq!(
        describe_status(&status(None, DirtyState::Clean, false, None, false)),
        vec![seg(Paint::Missing, "No upstream set")]
    );
}

#[test]
fn dirty_head_is_described_after_fetch_note() {
    assert_eq!(
        describe_status(&status(Some("o/m"), DirtyState::UntrackedFiles, true, Some(true), true)),
        vec![
            seg(Paint::Cloning, "New upstream commits"),
            seg(Paint::Plain, " - "),
            seg(Paint::Dirty, "Dirty (Untracked files)"),
        ]
    );
}

#[test]
fn branch_line_has_marker_and_padded_name() {
    let line = describe_full(&status(None, DirtyState::Clean, true, None, false));
    assert_eq!(line[0], seg(Paint::Plain, "  * "));
    assert_eq!(line[1], seg(Paint::Branch, "master :                 "));
    assert_eq!(line[2], seg(Paint::Plain, " "));
    assert_eq!(line[3], seg(Paint::Missing, "No upstream set"));
}

#[test]
fn long_names_are_shortened() {
    assert_eq!(ellipsize("abcdef", 4), "abc\u{2026}");
    assert_eq!(ellipsize("abc", 4), "abc");
}
