//! Edges of a flow chart.
use vstd::prelude::*;

use crate::flow_chart::types::EdgeStep;

verus! {

/// A directed edge between two nodes, with optional explicit routing steps.
/// Its reveal point and reveal window, which are floating-point values, are
/// kept by the renderer beside it.
#[derive(Debug)]
pub struct FlowEdge {
    pub from: usize,
    pub to: usize,
    pub route_steps: Vec<EdgeStep>,
}

impl FlowEdge {
    pub fn new(from: usize, to: usize) -> (e: Self)
        ensures
            e.from == from,
            e.to == to,
            e.route_steps@ == Seq::<EdgeStep>::empty(),
    {
        FlowEdge { from, to, route_steps: Vec::new() }
    }

    pub fn with_route_steps(self, steps: Vec<EdgeStep>) -> (e: Self)
        ensures
            e.from == self.from,
            e.to == self.to,
            e.route_steps == steps,
    {
        FlowEdge { from: self.from, to: self.to, route_steps: steps }
    }

    /// Same as `with_route_steps`.
    pub fn with_route_hint(self, steps: Vec<EdgeStep>) -> (e: Self)
        ensures
            e.from == self.from,
            e.to == self.to,
            e.route_steps == steps,
    {
        self.with_route_steps(steps)
    }
}

} // verus!
