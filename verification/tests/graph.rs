use tricore_rs::analyze::{Edge, EdgeKind};
use tricore_rs::graph::{graph_layout, EdgeFilter};

const ALL: EdgeFilter = EdgeFilter { ft: true, br: true, cbr: true, call: true };

fn e(from: u32, to: u32, kind: EdgeKind) -> Edge {
    Edge { from, to, kind }
}

#[test]
fn levels_count_edges_from_the_roots() {
    let edges = [e(0, 4, EdgeKind::Fallthrough), e(4, 8, EdgeKind::Branch), e(0, 8, EdgeKind::CondBranch)];
    let l = graph_layout(&[0, 4, 8, 12], &edges, ALL);
    assert_eq!(l.depth, 1);
    assert_eq!(l.levels, vec![(0, 0), (4, 1), (8, 1), (12, 0)]);
    assert_eq!(l.levels_total, 2);
    assert_eq!(l.rows, vec![vec![0, 12], vec![4, 8]]);
}

#[test]
fn hidden_edges_do_not_count() {
    let edges = [e(0, 4, EdgeKind::Fallthrough), e(4, 8, EdgeKind::Branch), e(0, 8, EdgeKind::CondBranch)];
    let f = EdgeFilter { ft: false, ..ALL };
    let l = graph_layout(&[0, 4, 8, 12], &edges, f);
    assert_eq!(l.rows, vec![vec![0, 4, 12], vec![8]]);
}

#[test]
fn a_cycle_starts_from_the_first_block() {
    let edges = [e(4, 0, EdgeKind::Branch), e(0, 4, EdgeKind::Branch)];
    let l = graph_layout(&[4, 0], &edges, ALL);
    assert_eq!(l.levels, vec![(4, 0), (0, 1)]);
    assert_eq!(l.rows, vec![vec![4], vec![0]]);
}

#[test]
fn unreached_blocks_get_levels_of_their_own() {
    let edges = [e(4, 8, EdgeKind::Branch), e(8, 4, EdgeKind::Branch)];
    let l = graph_layout(&[0, 4, 8, 4], &edges, ALL);
    assert_eq!(l.depth, 0);
    assert_eq!(l.levels, vec![(0, 0), (4, 1), (8, 2), (4, 1)]);
    assert_eq!(l.levels_total, 3);
    assert_eq!(l.rows, vec![vec![0], vec![4, 4], vec![8]]);
}

#[test]
fn targets_outside_the_blocks_still_take_a_level() {
    let l = graph_layout(&[0], &[e(0, 100, EdgeKind::Call)], ALL);
    assert_eq!(l.depth, 1);
    assert_eq!(l.levels_total, 2);
    assert_eq!(l.rows, vec![vec![0], vec![]]);
    let none = graph_layout(&[], &[], ALL);
    assert_eq!(none.levels_total, 1);
    assert_eq!(none.rows, vec![Vec::<u32>::new()]);
}
