use murali::stepwise::model::{Direction, Step, StepwiseModel, TattvaContent, Transition};
use murali::stepwise::order::topological_sort;
use murali::stepwise::script::{deduplicate, ScriptBuilder};
use murali::stepwise::signal::{
    is_transition_signaled, node_signal, route_moves, signal_hop, NodeSignal, RouteMove,
    SignalHop, StepwiseDirection,
};
use murali::stepwise::timeline::{StepPhase, TimelineEngine, TransitionPhase};

fn labels(model: &StepwiseModel) -> Vec<String> {
    model.steps.iter().map(|s| s.label.clone()).collect()
}

fn ends(model: &StepwiseModel) -> Vec<(usize, usize)> {
    model.transitions.iter().map(|t| (t.from, t.to)).collect()
}

#[test]
fn step_indices_are_sequential() {
    let mut s = ScriptBuilder::new();
    assert_eq!(s.step("a"), 0);
    assert_eq!(s.step("b"), 1);
    assert_eq!(s.step_with_content("c"), 2);
    let m = s.build();
    assert_eq!(labels(&m), vec!["a", "b", "c"]);
    assert!(!m.steps[0].has_content);
    assert!(m.steps[2].has_content);
}

#[test]
fn plain_script_is_linear_chain() {
    let mut s = ScriptBuilder::new();
    for i in 0..5 {
        s.step(&format!("step_{}", i));
    }
    let m = s.build();
    assert_eq!(m.sequence, vec![0, 1, 2, 3, 4]);
    assert_eq!(m.build_sequence, vec![0, 1, 2, 3, 4]);
    assert_eq!(ends(&m), vec![(0, 1), (1, 2), (2, 3), (3, 4)]);
    assert!(m.transitions.iter().all(|t| t.route.is_none()));
}

#[test]
fn single_step_has_no_transitions() {
    let mut s = ScriptBuilder::new();
    s.step("only");
    let m = s.build();
    assert_eq!(m.sequence, vec![0]);
    assert!(m.transitions.is_empty());
}

#[test]
fn empty_script() {
    let m = ScriptBuilder::new().build();
    assert!(m.steps.is_empty());
    assert!(m.sequence.is_empty());
    assert!(m.transitions.is_empty());
}

#[test]
fn explicit_connection_suppresses_chain() {
    let mut s = ScriptBuilder::new();
    for i in 0..4 {
        s.step(&format!("s{}", i));
    }
    s.connect(0, 1);
    let m = s.build();
    assert_eq!(ends(&m), vec![(0, 1)]);
    // Topological order lists the unconnected steps too.
    assert_eq!(m.sequence, vec![0, 2, 3, 1]);
}

#[test]
fn linear_connections_give_a_permutation() {
    let mut s = ScriptBuilder::new();
    for i in 0..6 {
        s.step(&format!("s{}", i));
    }
    for i in 0..5 {
        s.connect(i, i + 1);
    }
    let m = s.build();
    let mut sorted = m.sequence.clone();
    sorted.sort();
    assert_eq!(sorted, vec![0, 1, 2, 3, 4, 5]);
    assert_eq!(m.sequence, vec![0, 1, 2, 3, 4, 5]);
}

#[test]
fn route_is_stored_on_transition() {
    let mut s = ScriptBuilder::new();
    s.step("a");
    s.step("b");
    s.connect(0, 1).route(vec![Direction::Up, Direction::Right]);
    let m = s.build();
    assert_eq!(m.transitions[0].route, Some(vec![Direction::Up, Direction::Right]));
}

#[test]
fn loop_script_with_explicit_sequence() {
    let mut s = ScriptBuilder::new();
    let a = s.step("Start");
    let b = s.step("Process");
    s.connect(a, b);
    s.connect(b, a).route(vec![Direction::Up, Direction::Left]);
    s.with_sequence(vec![a, b, a, b]);
    let m = s.build();
    assert_eq!(m.sequence, vec![0, 1, 0, 1]);
    assert_eq!(m.build_sequence, vec![0, 1]);
    assert_eq!(ends(&m), vec![(0, 1), (1, 0)]);
    assert_eq!(m.transitions[0].route, None);
    assert_eq!(m.transitions[1].route, Some(vec![Direction::Up, Direction::Left]));
}

#[test]
fn dedup_keeps_first_occurrences() {
    assert_eq!(deduplicate(&vec![0, 1, 2, 1, 2, 3]), vec![0, 1, 2, 3]);
    assert_eq!(deduplicate(&vec![]), Vec::<usize>::new());
    assert_eq!(deduplicate(&vec![5, 5, 5]), vec![5]);
    assert_eq!(deduplicate(&vec![3, 1, 2]), vec![3, 1, 2]);
}

#[test]
fn kahn_order_of_a_diamond() {
    assert_eq!(topological_sort(4, &vec![(0, 2), (1, 2), (2, 3)]), vec![0, 1, 2, 3]);
}

#[test]
fn kahn_order_queues_in_increasing_order() {
    assert_eq!(topological_sort(3, &vec![(2, 0), (1, 0)]), vec![1, 2, 0]);
}

#[test]
fn kahn_leaves_out_cycles() {
    assert_eq!(topological_sort(3, &vec![(0, 1), (1, 0)]), vec![2]);
}

#[test]
fn kahn_counts_repeated_connections() {
    assert_eq!(topological_sort(2, &vec![(0, 1), (0, 1)]), vec![0, 1]);
    assert_eq!(topological_sort(0, &vec![]), Vec::<usize>::new());
}

fn chain_model(n: usize) -> StepwiseModel {
    StepwiseModel {
        steps: (0..n).map(|i| Step { label: format!("s{}", i), has_content: false }).collect(),
        transitions: (0..n.saturating_sub(1))
            .map(|i| Transition { from: i, to: i + 1, route: None })
            .collect(),
        sequence: (0..n).collect(),
        build_sequence: (0..n).collect(),
    }
}

#[test]
fn phases_in_the_middle_of_a_build() {
    let m = chain_model(3);
    let (steps, transitions) = TimelineEngine::phases(&m, 1);
    assert_eq!(
        steps,
        vec![
            StepPhase::Completed,
            StepPhase::Revealing { whole_segment: false },
            StepPhase::Pending
        ]
    );
    assert_eq!(transitions, vec![TransitionPhase::Drawing, TransitionPhase::Hidden]);
}

#[test]
fn first_step_reveals_over_whole_segment() {
    let m = chain_model(3);
    let (steps, transitions) = TimelineEngine::phases(&m, 0);
    assert_eq!(steps[0], StepPhase::Revealing { whole_segment: true });
    assert_eq!(transitions, vec![TransitionPhase::Hidden, TransitionPhase::Hidden]);
}

#[test]
fn phases_only_move_forward() {
    let m = chain_model(4);
    let rank = |p: &StepPhase| match p {
        StepPhase::Pending => 0,
        StepPhase::Revealing { .. } => 1,
        StepPhase::Completed => 2,
    };
    let mut prev = TimelineEngine::phases(&m, 0).0;
    for a in 1..4 {
        let cur = TimelineEngine::phases(&m, a).0;
        for v in 0..4 {
            assert!(rank(&prev[v]) <= rank(&cur[v]));
        }
        prev = cur;
    }
}

#[test]
fn back_edge_completes_after_its_source() {
    let mut m = chain_model(3);
    m.transitions.push(Transition { from: 2, to: 0, route: None });
    assert_eq!(TimelineEngine::phases(&m, 2).1[2], TransitionPhase::Hidden);
    assert_eq!(TimelineEngine::phases(&m, 3).1[2], TransitionPhase::Completed);
}

#[test]
fn build_runs_over_the_deduplicated_sequence() {
    let mut s = ScriptBuilder::new();
    let a = s.step("A");
    let b = s.step("B");
    s.connect(a, b);
    s.connect(b, a);
    s.with_sequence(vec![a, b, a, b]);
    let m = s.build();
    assert_eq!(m.build_sequence, vec![0, 1]);
    // Half way through a two-step build: the second step's segment.
    let (steps, transitions) = TimelineEngine::phases(&m, 1);
    assert_eq!(steps, vec![StepPhase::Completed, StepPhase::Revealing { whole_segment: false }]);
    assert_eq!(transitions, vec![TransitionPhase::Drawing, TransitionPhase::Hidden]);
}

#[test]
fn index_validity() {
    let mut m = chain_model(2);
    assert!(TimelineEngine::indices_valid(&m));
    m.build_sequence = vec![0, 2];
    assert!(!TimelineEngine::indices_valid(&m));
    let mut m = chain_model(2);
    m.transitions.push(Transition { from: 0, to: 5, route: None });
    assert!(!TimelineEngine::indices_valid(&m));
}

#[test]
fn completed_marks_everything() {
    let m = chain_model(3);
    let (steps, transitions) = TimelineEngine::completed(&m);
    assert!(steps.iter().all(|s| *s == StepPhase::Completed));
    assert_eq!(transitions.len(), 2);
    assert!(transitions.iter().all(|t| *t == TransitionPhase::Completed));
}

#[test]
fn signal_pulses_and_visits() {
    let mut m = chain_model(3);
    m.sequence = vec![0, 1, 0, 2];
    assert_eq!(node_signal(&m, 0, 0), NodeSignal { pulsing: true, visited: true });
    assert_eq!(node_signal(&m, 1, 1), NodeSignal { pulsing: false, visited: false });
    assert_eq!(node_signal(&m, 1, 2), NodeSignal { pulsing: true, visited: true });
    assert_eq!(node_signal(&m, 0, 4), NodeSignal { pulsing: true, visited: true });
    assert_eq!(node_signal(&m, 2, 5), NodeSignal { pulsing: false, visited: false });
}

#[test]
fn transition_signaled_once_its_hop_begins() {
    let m = chain_model(3);
    assert!(!is_transition_signaled(&m, 1, 2));
    assert!(is_transition_signaled(&m, 1, 3));
    assert!(is_transition_signaled(&m, 0, 1));
}

#[test]
fn hops_of_the_journey() {
    let m = chain_model(3);
    assert_eq!(signal_hop(&m, 0), None);
    assert_eq!(signal_hop(&m, 1), Some(SignalHop { from: 0, to: 1, transition: Some(0) }));
    assert_eq!(signal_hop(&m, 3), Some(SignalHop { from: 1, to: 2, transition: Some(1) }));
    let mut looped = chain_model(3);
    looped.sequence = vec![0, 2];
    assert_eq!(signal_hop(&looped, 1), Some(SignalHop { from: 0, to: 2, transition: None }));
}

#[test]
fn route_moves_clamp_to_existing_ranks() {
    let r = route_moves(
        StepwiseDirection::Horizontal,
        1,
        3,
        &vec![Direction::Up, Direction::Right, Direction::Right, Direction::Right, Direction::Down],
    );
    assert_eq!(
        r,
        vec![
            RouteMove::ToLane { positive: true },
            RouteMove::ToRank(2),
            RouteMove::ToRank(2),
            RouteMove::ToRank(2),
            RouteMove::ToLane { positive: false },
        ]
    );
}

#[test]
fn route_moves_vertical_layout() {
    let r = route_moves(
        StepwiseDirection::Vertical,
        0,
        2,
        &vec![Direction::Up, Direction::Right, Direction::Down, Direction::Down],
    );
    assert_eq!(
        r,
        vec![
            RouteMove::ToRank(0),
            RouteMove::ToLane { positive: true },
            RouteMove::ToRank(0),
            RouteMove::ToRank(1),
        ]
    );
}

#[test]
fn stepwise_direction_default() {
    assert_eq!(StepwiseDirection::default(), StepwiseDirection::Horizontal);
}

#[test]
fn tattva_content_wraps_its_value() {
    assert_eq!(TattvaContent::new(5u8).inner, 5);
}
