use borrow_audit::points_to::NotTracked;
use borrow_audit::points_to::PointsToGraph;

#[test]
fn new_graph_tracks_nothing() {
    let graph = PointsToGraph::new();
    assert!(!graph.does_variable_exits(0));
    assert_eq!(graph.get_variable(0), Err(NotTracked { variable: 0 }));
}

#[test]
fn ensure_registers_once() {
    let mut graph = PointsToGraph::new();
    graph.ensure(7);
    let node = graph.get_variable(7);
    graph.ensure(7);
    assert!(graph.does_variable_exits(7));
    assert_eq!(graph.get_variable(7), node);
    assert_eq!(graph.are_alias(7, 7), Ok(true));
}

#[test]
fn nodes_are_numbered_in_order_of_registration() {
    let mut graph = PointsToGraph::new();
    graph.constant(40);
    graph.points_to(41, 42);
    assert_eq!(graph.get_variable(40), Ok(0));
    assert_eq!(graph.get_variable(41), Ok(1));
    assert_eq!(graph.get_variable(42), Ok(2));
}

#[test]
fn two_edges_to_one_target_alias() {
    let mut graph = PointsToGraph::new();
    graph.points_to(1, 3);
    graph.points_to(2, 3);
    assert_eq!(graph.are_alias(1, 2), Ok(true));
}

#[test]
fn unrelated_variables_do_not_alias() {
    let mut graph = PointsToGraph::new();
    graph.points_to(1, 3);
    graph.points_to(2, 4);
    assert_eq!(graph.are_alias(1, 2), Ok(false));
    assert_eq!(graph.are_alias(3, 4), Ok(false));
}

#[test]
fn alias_follows_edges_transitively() {
    let mut graph = PointsToGraph::new();
    graph.points_to(1, 2);
    graph.points_to(2, 3);
    graph.points_to(3, 4);
    graph.points_to(9, 4);
    assert_eq!(graph.are_alias(1, 9), Ok(true));
    assert_eq!(graph.are_alias(1, 4), Ok(true));
    assert_eq!(graph.are_alias(4, 1), Ok(true));
}

#[test]
fn alias_terminates_on_a_cycle() {
    let mut graph = PointsToGraph::new();
    graph.points_to(1, 2);
    graph.points_to(2, 1);
    graph.constant(5);
    assert_eq!(graph.are_alias(1, 2), Ok(true));
    assert_eq!(graph.are_alias(1, 5), Ok(false));
}

#[test]
fn alias_is_symmetric() {
    let mut graph = PointsToGraph::new();
    graph.points_to(1, 2);
    graph.points_to(3, 2);
    graph.points_to(4, 5);
    for a in 1..6 {
        for b in 1..6 {
            assert_eq!(graph.are_alias(a, b), graph.are_alias(b, a));
        }
    }
}

#[test]
fn unregistered_variable_is_not_tracked() {
    let mut graph = PointsToGraph::new();
    graph.constant(1);
    assert_eq!(graph.are_alias(1, 9), Err(NotTracked { variable: 9 }));
    assert_eq!(graph.are_alias(9, 1), Err(NotTracked { variable: 9 }));
    assert_eq!(graph.are_alias(8, 9), Err(NotTracked { variable: 8 }));
}

#[test]
fn constant_removes_outgoing_edges() {
    let mut graph = PointsToGraph::new();
    graph.points_to(1, 3);
    assert_eq!(graph.are_alias(1, 3), Ok(true));
    graph.constant(1);
    assert_eq!(graph.are_alias(1, 3), Ok(false));
    assert!(graph.does_variable_exits(1));
    assert!(graph.does_variable_exits(3));
}

#[test]
fn constant_keeps_incoming_edges() {
    let mut graph = PointsToGraph::new();
    graph.points_to(1, 2);
    graph.points_to(2, 3);
    graph.constant(2);
    assert_eq!(graph.are_alias(1, 2), Ok(true));
    assert_eq!(graph.are_alias(2, 3), Ok(false));
    assert_eq!(graph.are_alias(1, 3), Ok(false));
}

#[test]
fn constant_twice_is_constant_once() {
    let mut graph = PointsToGraph::new();
    graph.points_to(1, 2);
    graph.points_to(1, 3);
    graph.constant(1);
    assert_eq!(graph.are_alias(1, 2), Ok(false));
    assert_eq!(graph.are_alias(1, 3), Ok(false));
    graph.constant(1);
    assert_eq!(graph.are_alias(1, 2), Ok(false));
    assert_eq!(graph.are_alias(1, 3), Ok(false));
    assert_eq!(graph.are_alias(1, 1), Ok(true));
}

#[test]
fn constant_removes_every_edge_whatever_their_indices() {
    // Edge indices move when an edge is removed: the removal of the edge
    // of 2 moves the last edge of 1 to the front.
    let mut graph = PointsToGraph::new();
    graph.points_to(2, 3);
    graph.points_to(1, 3);
    graph.points_to(1, 4);
    graph.constant(2);
    graph.constant(1);
    assert_eq!(graph.are_alias(1, 3), Ok(false));
    assert_eq!(graph.are_alias(1, 4), Ok(false));
    assert_eq!(graph.are_alias(2, 3), Ok(false));
}

#[test]
fn constant_leaves_the_edges_of_others() {
    let mut graph = PointsToGraph::new();
    graph.points_to(1, 5);
    graph.points_to(2, 5);
    graph.points_to(3, 5);
    graph.points_to(2, 6);
    graph.constant(2);
    assert_eq!(graph.are_alias(1, 3), Ok(true));
    assert_eq!(graph.are_alias(1, 2), Ok(false));
    assert_eq!(graph.are_alias(2, 6), Ok(false));
}

#[test]
fn points_to_keeps_earlier_edges() {
    let mut graph = PointsToGraph::new();
    graph.points_to(1, 2);
    graph.points_to(1, 3);
    assert_eq!(graph.are_alias(1, 2), Ok(true));
    assert_eq!(graph.are_alias(1, 3), Ok(true));
    assert_eq!(graph.are_alias(2, 3), Ok(false));
}

#[test]
fn points_to_registers_both_ends() {
    let mut graph = PointsToGraph::new();
    graph.points_to(1, 2);
    assert!(graph.does_variable_exits(1));
    assert!(graph.does_variable_exits(2));
    assert!(!graph.does_variable_exits(3));
}

#[test]
fn points_to_itself() {
    let mut graph = PointsToGraph::new();
    graph.points_to(1, 1);
    assert_eq!(graph.are_alias(1, 1), Ok(true));
    graph.constant(1);
    assert_eq!(graph.are_alias(1, 1), Ok(true));
}

#[test]
fn parallel_edges_are_removed_together() {
    let mut graph = PointsToGraph::new();
    graph.points_to(1, 2);
    graph.points_to(1, 2);
    graph.points_to(1, 2);
    graph.constant(1);
    assert_eq!(graph.are_alias(1, 2), Ok(false));
}

#[test]
fn fresh_value_severs_only_what_left_the_variable() {
    let mut graph = PointsToGraph::new();
    graph.points_to(1, 2);
    graph.points_to(3, 1);
    graph.constant(1);
    // 2 was tied to 1 by the edge that left 1; 3 still reaches 1.
    assert_eq!(graph.are_alias(1, 2), Ok(false));
    assert_eq!(graph.are_alias(1, 3), Ok(true));
}
