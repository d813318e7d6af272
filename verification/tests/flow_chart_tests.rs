use murali::flow_chart::edge::FlowEdge;
use murali::flow_chart::model::FlowChartModel;
use murali::flow_chart::node::ProjectedFlowNodeContent;
use murali::flow_chart::renderer::{FlowRenderer, HopDraw};
use murali::flow_chart::routing::{opposite_step, EdgeRouter, RouteKind};
use murali::flow_chart::schedule::{AnimationEngine, ThresholdAnchor, ThresholdSource};
use murali::flow_chart::types::{
    EdgeAnimationStyle, EdgeStep, FlowChartDirection, FlowNodeContentVisibility,
};

use ThresholdAnchor::{End, Fixed, Start};
use ThresholdSource::{Anchor, Between, Uniform};

#[test]
fn uniform_thresholds_in_order() {
    let (nodes, edges) =
        AnimationEngine::compute_reveal_thresholds(&vec![false; 3], &vec![false; 2], false);
    assert_eq!(
        nodes,
        vec![
            Uniform { numerator: 0, denominator: 5 },
            Uniform { numerator: 1, denominator: 5 },
            Uniform { numerator: 2, denominator: 5 }
        ]
    );
    assert_eq!(
        edges,
        vec![Uniform { numerator: 3, denominator: 5 }, Uniform { numerator: 4, denominator: 5 }]
    );
}

#[test]
fn uniform_thresholds_interleaved() {
    let (nodes, edges) =
        AnimationEngine::compute_reveal_thresholds(&vec![false; 3], &vec![false; 2], true);
    assert_eq!(
        nodes,
        vec![
            Uniform { numerator: 0, denominator: 5 },
            Uniform { numerator: 2, denominator: 5 },
            Uniform { numerator: 4, denominator: 5 }
        ]
    );
    assert_eq!(
        edges,
        vec![Uniform { numerator: 1, denominator: 5 }, Uniform { numerator: 3, denominator: 5 }]
    );
}

#[test]
fn interleaved_thresholds_stay_within_one_without_edges() {
    let (nodes, edges) =
        AnimationEngine::compute_reveal_thresholds(&vec![false; 3], &vec![], true);
    assert_eq!(
        nodes,
        vec![
            Uniform { numerator: 0, denominator: 4 },
            Uniform { numerator: 2, denominator: 4 },
            Uniform { numerator: 4, denominator: 4 }
        ]
    );
    assert!(edges.is_empty());
}

#[test]
fn interleaved_thresholds_keep_the_count_when_in_range() {
    let (nodes, _) = AnimationEngine::compute_reveal_thresholds(&vec![false; 2], &vec![], true);
    assert_eq!(
        nodes,
        vec![Uniform { numerator: 0, denominator: 2 }, Uniform { numerator: 2, denominator: 2 }]
    );
}

#[test]
fn interleaved_thresholds_with_extra_edges() {
    let (nodes, edges) =
        AnimationEngine::compute_reveal_thresholds(&vec![false], &vec![false; 2], true);
    assert_eq!(nodes, vec![Uniform { numerator: 0, denominator: 3 }]);
    assert_eq!(
        edges,
        vec![Uniform { numerator: 1, denominator: 3 }, Uniform { numerator: 3, denominator: 3 }]
    );
}

#[test]
fn empty_chart_has_no_thresholds() {
    let (nodes, edges) = AnimationEngine::compute_reveal_thresholds(&vec![], &vec![], false);
    assert!(nodes.is_empty() && edges.is_empty());
}

#[test]
fn explicit_point_splits_the_interpolation() {
    let (nodes, _) = AnimationEngine::compute_reveal_thresholds(
        &vec![false, false, true, false, false],
        &vec![],
        false,
    );
    assert_eq!(
        nodes,
        vec![
            Anchor(Start),
            Between { from: Start, to: Fixed(2), step: 1, count: 2 },
            Anchor(Fixed(2)),
            Between { from: Fixed(2), to: End, step: 1, count: 2 },
            Anchor(End),
        ]
    );
}

#[test]
fn explicit_first_point_replaces_start() {
    let (nodes, _) =
        AnimationEngine::compute_reveal_thresholds(&vec![true, false, false, false], &vec![], false);
    assert_eq!(
        nodes,
        vec![
            Anchor(Fixed(0)),
            Between { from: Fixed(0), to: End, step: 1, count: 3 },
            Between { from: Fixed(0), to: End, step: 2, count: 3 },
            Anchor(End),
        ]
    );
}

#[test]
fn explicit_edge_point_when_interleaved() {
    let (nodes, edges) =
        AnimationEngine::compute_reveal_thresholds(&vec![false, false], &vec![true], true);
    assert_eq!(nodes, vec![Anchor(Start), Anchor(End)]);
    assert_eq!(edges, vec![Anchor(Fixed(2))]);
}

#[test]
fn single_fixed_component() {
    let (nodes, edges) = AnimationEngine::compute_reveal_thresholds(&vec![true], &vec![], false);
    assert_eq!(nodes, vec![Anchor(Fixed(0))]);
    assert!(edges.is_empty());
}

#[test]
fn model_starts_empty() {
    let m = FlowChartModel::new(3);
    assert_eq!(m.node_count, 3);
    assert!(m.edges.is_empty());
    assert!(m.flow_path.is_empty());
    assert_eq!(m.direction, FlowChartDirection::Horizontal);
    assert_eq!(m.label_ids, vec![None, None, None]);
    assert!(m.active_content_nodes.is_empty());
}

#[test]
fn label_ids_and_label_text() {
    let mut m = FlowChartModel::new(3);
    m.set_label_id(1, 9);
    m.set_label_id(5, 4);
    assert_eq!(m.label_ids, vec![None, Some(9), None]);
    assert!(m.renders_label_text(0));
    assert!(!m.renders_label_text(1));
    assert!(m.renders_label_text(7));
}

#[test]
fn content_visibility() {
    let mut m = FlowChartModel::new(4);
    assert!(m.node_content_visible(2, FlowNodeContentVisibility::Always));
    assert!(!m.node_content_visible(2, FlowNodeContentVisibility::ActiveOnly));
    m.activate_content_node(2);
    assert!(m.node_content_visible(2, FlowNodeContentVisibility::ActiveOnly));
    m.deactivate_content_node(2);
    assert!(!m.node_content_visible(2, FlowNodeContentVisibility::ActiveOnly));
    let m = m.with_active_content_nodes(vec![1, 3, 1]);
    assert_eq!(m.active_content_nodes.len(), 2);
    assert!(m.node_content_visible(3, FlowNodeContentVisibility::ActiveOnly));
}

#[test]
fn first_matching_edge_is_found() {
    let mut m = FlowChartModel::new(3);
    m.edges = vec![FlowEdge::new(0, 1), FlowEdge::new(1, 2), FlowEdge::new(0, 1)];
    assert_eq!(m.edge_definition(0, 1), Some(0));
    assert_eq!(m.edge_definition(1, 2), Some(1));
    assert_eq!(m.edge_definition(2, 0), None);
}

#[test]
fn connection_pairs_from_edges() {
    let mut m = FlowChartModel::new(3);
    m.edges = vec![FlowEdge::new(2, 0), FlowEdge::new(0, 1)];
    m.flow_path = vec![0, 1, 2];
    assert_eq!(m.connection_pairs(), vec![(2, 0), (0, 1)]);
}

#[test]
fn connection_pairs_from_flow_path() {
    let mut m = FlowChartModel::new(4);
    m.flow_path = vec![0, 1, 2, 1, 2, 3];
    assert_eq!(m.connection_pairs(), vec![(0, 1), (1, 2), (2, 1), (2, 3)]);
    m.flow_path = vec![0];
    assert!(m.connection_pairs().is_empty());
}

#[test]
fn edge_builders() {
    let e = FlowEdge::new(1, 2).with_route_steps(vec![EdgeStep::Up, EdgeStep::Right]);
    assert_eq!((e.from, e.to), (1, 2));
    assert_eq!(e.route_steps, vec![EdgeStep::Up, EdgeStep::Right]);
    let h = FlowEdge::new(3, 4).with_route_hint(vec![EdgeStep::Down]);
    assert_eq!(h.route_steps, vec![EdgeStep::Down]);
    assert!(FlowEdge::new(0, 0).route_steps.is_empty());
}

#[test]
fn opposite_steps() {
    assert_eq!(opposite_step(EdgeStep::Up), EdgeStep::Down);
    assert_eq!(opposite_step(EdgeStep::Down), EdgeStep::Up);
    assert_eq!(opposite_step(EdgeStep::Left), EdgeStep::Right);
    assert_eq!(opposite_step(EdgeStep::Right), EdgeStep::Left);
    assert_eq!(opposite_step(opposite_step(EdgeStep::Left)), EdgeStep::Left);
}

#[test]
fn route_kinds() {
    assert_eq!(EdgeRouter::route_kind(0, 1), RouteKind::Adjacent);
    assert_eq!(EdgeRouter::route_kind(0, 3), RouteKind::Forward);
    assert_eq!(EdgeRouter::route_kind(3, 1), RouteKind::Loop);
    assert_eq!(EdgeRouter::route_kind(2, 2), RouteKind::Loop);
    assert_eq!(EdgeRouter::route_kind(usize::MAX, 0), RouteKind::Loop);
}

#[test]
fn route_span() {
    assert_eq!(EdgeRouter::span(5, 2), 3);
    assert_eq!(EdgeRouter::span(2, 5), 3);
    assert_eq!(EdgeRouter::span(2, 2), 1);
}

#[test]
fn manual_route_sides() {
    assert_eq!(EdgeRouter::manual_route_sides(&vec![]), None);
    assert_eq!(
        EdgeRouter::manual_route_sides(&vec![EdgeStep::Up, EdgeStep::Right]),
        Some((EdgeStep::Up, EdgeStep::Left))
    );
    assert_eq!(
        EdgeRouter::manual_route_sides(&vec![EdgeStep::Down]),
        Some((EdgeStep::Down, EdgeStep::Up))
    );
}

#[test]
fn hops_drawn_as_a_prefix() {
    assert_eq!(FlowRenderer::hop_draw(0, 2, false), HopDraw::Full);
    assert_eq!(FlowRenderer::hop_draw(2, 2, false), HopDraw::Partial);
    assert_eq!(FlowRenderer::hop_draw(2, 2, true), HopDraw::Full);
    assert_eq!(FlowRenderer::hop_draw(3, 2, false), HopDraw::Skip);
}

#[test]
fn arrivals_along_the_path() {
    assert_eq!(FlowRenderer::arrival_indices(&vec![0, 1, 0, 2], 0), vec![0, 2]);
    assert_eq!(FlowRenderer::arrival_indices(&vec![0, 1, 0, 2], 3), Vec::<usize>::new());
}

#[test]
fn edge_animation_default() {
    assert_eq!(EdgeAnimationStyle::default(), EdgeAnimationStyle::Instant);
}

#[test]
fn projected_content_keeps_state() {
    assert_eq!(ProjectedFlowNodeContent::new("x").state, "x");
}

use murali::flow_chart::layout::{FlowLayout, NodeSizeRule};
use murali::flow_chart::types::FlowNodePlacement;

#[test]
fn node_size_rules() {
    let label = "Plan".to_string();
    assert_eq!(FlowLayout::node_size_rule(true, true, &label), NodeSizeRule::Custom);
    assert_eq!(
        FlowLayout::node_size_rule(false, true, &label),
        NodeSizeRule::Fitted { label_chars: 4, with_content: true }
    );
    assert_eq!(
        FlowLayout::node_size_rule(false, false, &String::new()),
        NodeSizeRule::Fitted { label_chars: 0, with_content: false }
    );
    assert_eq!(
        FlowLayout::node_size_rule(false, false, &"héllo".to_string()),
        NodeSizeRule::Fitted { label_chars: 5, with_content: false }
    );
}

#[test]
fn no_custom_placement_means_linear_layout() {
    assert_eq!(
        FlowLayout::resolve_placements(&vec![Some(FlowNodePlacement::AbovePrevious), None], FlowChartDirection::Horizontal),
        None
    );
    assert_eq!(FlowLayout::resolve_placements(&vec![], FlowChartDirection::Vertical), None);
}

#[test]
fn custom_placements_fill_in_defaults() {
    let r = FlowLayout::resolve_placements(
        &vec![None, None, Some(FlowNodePlacement::LeftOfPrevious), None],
        FlowChartDirection::Vertical,
    );
    assert_eq!(
        r,
        Some(vec![
            FlowNodePlacement::BelowPrevious,
            FlowNodePlacement::LeftOfPrevious,
            FlowNodePlacement::BelowPrevious
        ])
    );
}

#[test]
fn progressive_edges_wait_for_both_ends() {
    assert!(AnimationEngine::should_draw_edge(false, false, false));
    assert!(AnimationEngine::should_draw_edge(true, true, true));
    assert!(!AnimationEngine::should_draw_edge(true, true, false));
    assert!(!AnimationEngine::should_draw_edge(true, false, true));
}
