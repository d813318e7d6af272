//! Adapters for the content embedded in flow chart nodes.
use vstd::prelude::*;

verus! {

/// Wraps any projectable, bounded value as the embedded content of a node.
pub struct ProjectedFlowNodeContent<T> {
    pub state: T,
}

impl<T> ProjectedFlowNodeContent<T> {
    pub fn new(state: T) -> (r: Self)
        ensures
            r.state == state,
    {
        ProjectedFlowNodeContent { state }
    }
}

} // verus!
