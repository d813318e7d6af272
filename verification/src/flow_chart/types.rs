//! Core kinds of the agentic flow chart.
use vstd::prelude::*;

verus! {

#[derive(Clone, Copy, Debug, PartialEq, Eq, Structural)]
pub enum FlowChartDirection {
    Horizontal,
    Vertical,
}

#[derive(Clone, Copy, Debug, PartialEq, Eq, Structural)]
pub enum FlowNodeShape {
    Rectangle,
    Rounded,
    Pill,
    Diamond,
}

#[derive(Clone, Copy, Debug, PartialEq, Eq, Structural)]
pub enum FlowNodePlacement {
    RightOfPrevious,
    LeftOfPrevious,
    AbovePrevious,
    BelowPrevious,
}

#[derive(Clone, Copy, Debug, PartialEq, Eq, Hash, Structural)]
pub enum EdgeStep {
    Up,
    Down,
    Left,
    Right,
}

#[derive(Clone, Copy, Debug, PartialEq, Eq, Structural)]
pub enum FlowNodeContentVisibility {
    Always,
    ActiveOnly,
}

#[derive(Clone, Copy, Debug, PartialEq, Eq, Structural)]
pub enum NodeAnimationStyle {
    /// Nodes appear instantly when revealed
    Instant,
    /// Nodes draw themselves like a write effect
    Write,
    /// Nodes drop from above with bounce
    Drop,
}

#[derive(Clone, Copy, Debug, PartialEq, Eq, Structural)]
pub enum EdgeAnimationStyle {
    /// Edges appear instantly when both source and target are revealed
    Instant,
    /// Edges draw progressively like a line drawing
    Write,
}

impl Default for EdgeAnimationStyle {
    fn default() -> (s: Self)
        ensures
            s == EdgeAnimationStyle::Instant,
    {
        EdgeAnimationStyle::Instant
    }
}

} // verus!
