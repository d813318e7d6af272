//! The data of a stepwise story: steps, transitions between them, and the
//! journey through them.
use vstd::prelude::*;

verus! {

/// A grid direction used to route a transition.
#[derive(Clone, Copy, Debug, PartialEq, Eq, Structural)]
pub enum Direction {
    Up,
    Down,
    Left,
    Right,
}

/// A node of the story. Custom projected content, when a step has it, is
/// kept by the renderer beside the model; `has_content` records that it
/// exists.
#[derive(Clone, Debug)]
pub struct Step {
    pub label: String,
    pub has_content: bool,
}

/// A directed connection between two steps, with an optional grid route.
#[derive(Clone, Debug)]
pub struct Transition {
    pub from: usize,
    pub to: usize,
    pub route: Option<Vec<Direction>>,
}

/// The built story.
#[derive(Clone, Debug)]
pub struct StepwiseModel {
    pub steps: Vec<Step>,
    pub transitions: Vec<Transition>,
    /// The signal/journey sequence — may contain repeated indices for loops.
    pub sequence: Vec<usize>,
    /// Unique steps of `sequence` in first-appearance order; drives the
    /// build animation.
    pub build_sequence: Vec<usize>,
}

/// Adapter that shows any projectable value as the content of a step.
pub struct TattvaContent<T> {
    pub inner: T,
}

impl<T> TattvaContent<T> {
    pub fn new(inner: T) -> (r: Self)
        ensures
            r.inner == inner,
    {
        TattvaContent { inner }
    }
}

} // verus!
