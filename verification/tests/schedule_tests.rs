use pavexc::call_graph::{CallGraph, CallGraphEdge, CallGraphNode, EdgeKind};
use pavexc::model::Access;
use pavexc::schedule::{execution_order, has_edges_inside, inputs_are_placed};

fn graph(n: usize, edges: &[(usize, usize)]) -> CallGraph {
    CallGraph {
        nodes: (0..n).map(|i| CallGraphNode::Compute { component_id: i }).collect(),
        edges: edges
            .iter()
            .map(|(from, to)| CallGraphEdge { from: *from, to: *to, kind: EdgeKind::Consume(Access::Owned) })
            .collect(),
    }
}

#[test]
fn a_node_is_computed_after_the_nodes_it_takes_from() {
    // 0 takes from 1 and 2, 1 takes from 2.
    let g = graph(3, &[(1, 0), (2, 0), (2, 1)]);
    assert_eq!(execution_order(&g), Some(vec![2, 1, 0]));
    // 0 takes from 3, 3 takes from 1; 2 stands alone.
    let g = graph(4, &[(3, 0), (1, 3)]);
    assert_eq!(execution_order(&g), Some(vec![1, 2, 3, 0]));
}

#[test]
fn of_the_nodes_that_are_ready_the_one_with_the_lowest_index_comes_first() {
    let g = graph(4, &[]);
    assert_eq!(execution_order(&g), Some(vec![0, 1, 2, 3]));
    // 1 and 3 are ready at the start; once 1 is computed, 0 is ready and comes before 3.
    let g = graph(4, &[(1, 0), (3, 2)]);
    assert_eq!(execution_order(&g), Some(vec![1, 0, 3, 2]));
}

#[test]
fn a_graph_with_a_cycle_has_no_order() {
    assert_eq!(execution_order(&graph(2, &[(0, 1), (1, 0)])), None);
    assert_eq!(execution_order(&graph(1, &[(0, 0)])), None);
    assert_eq!(execution_order(&graph(4, &[(3, 0), (1, 2), (2, 3), (3, 1)])), None);
}

#[test]
fn an_edge_that_leaves_the_graph_gives_no_order() {
    assert!(!has_edges_inside(&graph(2, &[(0, 2)])));
    assert!(!has_edges_inside(&graph(2, &[(5, 1)])));
    assert!(has_edges_inside(&graph(2, &[(0, 1)])));
    assert_eq!(execution_order(&graph(2, &[(0, 2)])), None);
}

#[test]
fn the_empty_graph_has_the_empty_order() {
    assert_eq!(execution_order(&graph(0, &[])), Some(vec![]));
}

#[test]
fn the_same_edge_twice_is_taken_once() {
    let g = graph(2, &[(1, 0), (1, 0)]);
    assert_eq!(execution_order(&g), Some(vec![1, 0]));
}

#[test]
fn a_node_is_ready_when_all_that_lead_to_it_are_placed() {
    let g = graph(3, &[(1, 0), (2, 0)]);
    assert!(!inputs_are_placed(&g, &vec![false, true, false], 0));
    assert!(inputs_are_placed(&g, &vec![false, true, true], 0));
    assert!(inputs_are_placed(&g, &vec![false, false, false], 1));
}
