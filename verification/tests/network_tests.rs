use murali::network::{ActivationFunc, IndicationStyle, NetworkTopology};
use murali::style::{Group, MuraliLogoPalette, PathFillRule};

#[test]
fn full_network_yields_every_path() {
    let t = NetworkTopology::new(vec![2, 3, 1]);
    let paths = t.all_paths();
    assert_eq!(paths.len(), 6);
    assert_eq!(paths[0], vec![0, 0, 0]);
    assert_eq!(paths[5], vec![1, 2, 0]);
}

#[test]
fn switched_off_node_stops_its_paths() {
    let t = NetworkTopology::new(vec![2, 2, 1]).deactivate_node(1, 0);
    assert_eq!(
        t.all_paths(),
        vec![vec![0, 0], vec![0, 1, 0], vec![1, 0], vec![1, 1, 0]]
    );
}

#[test]
fn switched_off_input_node() {
    let t = NetworkTopology::new(vec![2, 2]).with_deactivated_nodes(vec![(0, 1)]);
    assert_eq!(t.all_paths(), vec![vec![0, 0], vec![0, 1], vec![1]]);
}

#[test]
fn empty_network_has_no_paths() {
    assert!(NetworkTopology::new(vec![]).all_paths().is_empty());
    assert!(NetworkTopology::new(vec![0, 3]).all_paths().is_empty());
}

#[test]
fn node_activity() {
    let t = NetworkTopology::new(vec![2, 3]).deactivate_node(1, 1);
    assert!(t.is_node_active(0, 1));
    assert!(!t.is_node_active(1, 1));
    assert!(!t.is_node_active(0, 2));
    assert!(!t.is_node_active(2, 0));
}

#[test]
fn edge_activity() {
    let t = NetworkTopology::new(vec![2, 3]).deactivate_node(0, 0);
    assert!(!t.is_edge_active(0, 0, 1, 0));
    assert!(t.is_edge_active(0, 1, 1, 2));
    assert!(!t.is_edge_active(0, 1, 0, 0));
}

#[test]
fn full_path_check() {
    let t = NetworkTopology::new(vec![2, 3]).deactivate_node(1, 2);
    assert!(t.is_full_path(&vec![1, 0]));
    assert!(!t.is_full_path(&vec![1, 2]));
    assert!(!t.is_full_path(&vec![1]));
    assert!(!t.is_full_path(&vec![]));
    assert!(!NetworkTopology::new(vec![]).is_full_path(&vec![]));
}

#[test]
fn plain_kinds() {
    assert_ne!(IndicationStyle::Single, IndicationStyle::Loop(2));
    assert_eq!(IndicationStyle::Loop(3), IndicationStyle::Loop(3));
    assert_ne!(ActivationFunc::ReLU, ActivationFunc::Sigmoid);
    assert_ne!(MuraliLogoPalette::Light, MuraliLogoPalette::Dark);
    assert_ne!(PathFillRule::NonZero, PathFillRule::EvenOdd);
}

#[test]
fn group_keeps_items() {
    assert_eq!(Group::new(vec![3, 1, 2]).items, vec![3, 1, 2]);
}

#[test]
fn switched_off_nodes_form_a_set() {
    let t = NetworkTopology::new(vec![2, 2]).deactivate_node(1, 0).deactivate_node(1, 0);
    assert_eq!(t.inactive_nodes, vec![(1, 0)]);
    let t = NetworkTopology::new(vec![2, 2]).with_deactivated_nodes(vec![(0, 1), (1, 1), (0, 1)]);
    assert_eq!(t.inactive_nodes, vec![(0, 1), (1, 1)]);
}
