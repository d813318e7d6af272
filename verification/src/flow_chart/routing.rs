//! Decisions of the edge router.
use vstd::prelude::*;

use crate::flow_chart::types::EdgeStep;

verus! {

/// Get the opposite direction of an edge step.
pub fn opposite_step(step: EdgeStep) -> (r: EdgeStep)
    ensures
        r == spec_opposite_step(step),
{
    match step {
        EdgeStep::Up => EdgeStep::Down,
        EdgeStep::Down => EdgeStep::Up,
        EdgeStep::Left => EdgeStep::Right,
        EdgeStep::Right => EdgeStep::Left,
    }
}

pub open spec fn spec_opposite_step(step: EdgeStep) -> EdgeStep {
    match step {
        EdgeStep::Up => EdgeStep::Down,
        EdgeStep::Down => EdgeStep::Up,
        EdgeStep::Left => EdgeStep::Right,
        EdgeStep::Right => EdgeStep::Left,
    }
}

/// Law: reversing a step twice gives the step back, and no step is its own
/// opposite.
pub proof fn lemma_opposite_step_involution(step: EdgeStep)
    ensures
        spec_opposite_step(spec_opposite_step(step)) == step,
        spec_opposite_step(step) != step,
{
}

/// The shape of the automatic route of an edge, decided by the positions
/// of its ends in node order.
#[derive(Clone, Copy, Debug, PartialEq, Eq, Structural)]
pub enum RouteKind {
    /// The edge goes to the next node: a straight connection between
    /// facing sides.
    Adjacent,
    /// The edge skips forward over nodes: a route through the side lane.
    Forward,
    /// The edge goes back (or to itself): the better of two loop routes.
    Loop,
}

/// Edge routing engine - decides how an edge between two nodes is routed.
pub struct EdgeRouter;

impl EdgeRouter {
    /// The kind of automatic route from node `from` to node `to`.
    pub fn route_kind(from: usize, to: usize) -> (k: RouteKind)
        ensures
            k == (if to == from + 1 {
                RouteKind::Adjacent
            } else if to > from {
                RouteKind::Forward
            } else {
                RouteKind::Loop
            }),
    {
        if from < usize::MAX && to == from + 1 {
            RouteKind::Adjacent
        } else if to > from {
            RouteKind::Forward
        } else {
            RouteKind::Loop
        }
    }

    /// The node sides a manual route leaves from and enters by: the side
    /// its first step points to, and the side facing its last step. A
    /// route without steps has none.
    pub fn manual_route_sides(steps: &Vec<EdgeStep>) -> (r: Option<(EdgeStep, EdgeStep)>)
        ensures
            steps@.len() == 0 ==> r is None,
            steps@.len() > 0 ==> r == Some((steps@[0], spec_opposite_step(steps@.last()))),
    {
        if steps.len() == 0 {
            None
        } else {
            let first = steps[0];
            let last = steps[steps.len() - 1];
            Some((first, opposite_step(last)))
        }
    }

    /// How many nodes the route spans, at least one: the lane offset of a
    /// route is this many lane gaps.
    pub fn span(from: usize, to: usize) -> (s: usize)
        ensures
            s == (if from > to {
                from - to
            } else if to > from {
                to - from
            } else {
                1
            }),
    {
        let d = if from > to {
            from - to
        } else {
            to - from
        };
        if d == 0 {
            1
        } else {
            d
        }
    }
}

} // verus!
