use gws::graph::Ancestors;
use gws::graph::CommitGraph;

fn graph(parents: Vec<Vec<usize>>) -> CommitGraph {
    let mut g = CommitGraph::new();
    for ps in parents {
        assert!(g.add_commit(ps).is_some());
    }
    g
}

#[test]
fn a_commit_does_not_descend_from_itself() {
    let g = graph(vec![vec![], vec![0], vec![1]]);
    for c in 0..3 {
        assert!(!g.is_descendant_of(c, c));
    }
}

#[test]
fn linear_history_descends_one_way() {
    let g = graph(vec![vec![], vec![0], vec![1], vec![2]]);
    assert!(g.is_descendant_of(3, 0));
    assert!(g.is_descendant_of(3, 2));
    assert!(g.is_descendant_of(1, 0));
    assert!(!g.is_descendant_of(0, 3));
    assert!(!g.is_descendant_of(2, 3));
}

#[test]
fn diverged_histories_do_not_descend() {
    let g = graph(vec![vec![], vec![0], vec![0], vec![1], vec![2]]);
    assert!(!g.is_descendant_of(3, 4));
    assert!(!g.is_descendant_of(4, 3));
    assert!(!g.is_descendant_of(3, 2));
}

#[test]
fn unrelated_roots_do_not_descend() {
    let g = graph(vec![vec![], vec![]]);
    assert!(!g.is_descendant_of(0, 1));
    assert!(!g.is_descendant_of(1, 0));
}

#[test]
fn merge_descends_from_both_parents_with_separate_roots() {
    let g = graph(vec![vec![], vec![], vec![0, 1]]);
    assert!(g.is_descendant_of(2, 0));
    assert!(g.is_descendant_of(2, 1));
}

#[test]
fn descent_with_history_is_found() {
    let g = graph(vec![vec![], vec![0], vec![1]]);
    assert!(g.is_descendant_of(2, 1));
    assert!(!g.is_descendant_of(1, 2));
    let h = graph(vec![vec![], vec![0], vec![1], vec![2], vec![1], vec![3, 4]]);
    assert!(h.is_descendant_of(5, 2));
    assert!(h.is_descendant_of(5, 4));
    assert!(!h.is_descendant_of(3, 4));
}

#[test]
fn unknown_parent_is_rejected() {
    let mut g = graph(vec![vec![]]);
    assert_eq!(g.add_commit(vec![1]), None);
    assert_eq!(g.len(), 1);
    assert_eq!(g.add_commit(vec![0]), Some(1));
    assert!(g.is_well_formed());
}

#[test]
fn ancestors_are_handed_out_once_breadth_first() {
    let g = graph(vec![vec![], vec![0], vec![0], vec![1, 2]]);
    let mut a = Ancestors::new(&g, 3);
    let mut seen = Vec::new();
    while let Some(c) = a.next(&g) {
        seen.push(c);
    }
    assert_eq!(seen, vec![1, 2, 0]);
    assert!(a.has_returned(&g, 0));
    assert!(!a.has_returned(&g, 3));
}
