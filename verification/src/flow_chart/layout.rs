//! Layout decisions of a flow chart: where each node goes relative to the
//! previous one, and which rule sizes it.
use vstd::prelude::*;

use crate::flow_chart::types::{FlowChartDirection, FlowNodePlacement};

verus! {

/// How a node's size is decided.
#[derive(Clone, Copy, Debug, PartialEq, Eq, Structural)]
pub enum NodeSizeRule {
    /// The size the node was given.
    Custom,
    /// Fitted: at least the chart's default size, widened to hold a label
    /// of `label_chars` characters with its padding, and, `with_content`,
    /// the node's embedded content with its padding.
    Fitted { label_chars: usize, with_content: bool },
}

/// The size rule of a node: its own size if it has one; else fitted to the
/// default size, its label and its embedded content.
pub open spec fn size_rule(has_custom_size: bool, has_content: bool, label: Seq<char>) -> NodeSizeRule {
    if has_custom_size {
        NodeSizeRule::Custom
    } else {
        NodeSizeRule::Fitted { label_chars: label.len() as usize, with_content: has_content }
    }
}

/// Where a node goes when it names no placement: after the previous one
/// along the chart's direction.
pub open spec fn default_placement(direction: FlowChartDirection) -> FlowNodePlacement {
    match direction {
        FlowChartDirection::Horizontal => FlowNodePlacement::RightOfPrevious,
        FlowChartDirection::Vertical => FlowNodePlacement::BelowPrevious,
    }
}

/// Some node after the first names a placement.
pub open spec fn has_custom_placements(placements: Seq<Option<FlowNodePlacement>>) -> bool {
    exists|i: int| 1 <= i < placements.len() && placements[i] is Some
}

/// The placement of node `i` (from 1), its own or the default one.
pub open spec fn placement_of(
    placements: Seq<Option<FlowNodePlacement>>,
    direction: FlowChartDirection,
    i: int,
) -> FlowNodePlacement {
    match placements[i] {
        Some(p) => p,
        None => default_placement(direction),
    }
}

/// Decides how nodes are laid out.
pub struct FlowLayout;

impl FlowLayout {
    /// The size rule of a node.
    pub fn node_size_rule(has_custom_size: bool, has_content: bool, label: &String) -> (r: NodeSizeRule)
        ensures
            r == size_rule(has_custom_size, has_content, label@),
    {
        if has_custom_size {
            return NodeSizeRule::Custom;
        }
        let label_chars = label.as_str().unicode_len();
        NodeSizeRule::Fitted { label_chars, with_content: has_content }
    }

    /// Where each node after the first goes relative to the previous one,
    /// when some node after the first names a placement; `None` when none
    /// does, and the nodes are laid out in a line instead.
    pub fn resolve_placements(
        placements: &Vec<Option<FlowNodePlacement>>,
        direction: FlowChartDirection,
    ) -> (r: Option<Vec<FlowNodePlacement>>)
        ensures
            r is None <==> !has_custom_placements(placements@),
            r is Some ==> r->0@.len() == if placements@.len() == 0 {
                0
            } else {
                placements@.len() - 1
            },
            r is Some ==> forall|i: int|
                1 <= i < placements@.len() ==> r->0@[i - 1] == placement_of(placements@, direction, i),
    {
        let n = placements.len();
        let mut custom = false;
        let mut i: usize = 1;
        while i < n
            invariant
                1 <= i,
                n == placements@.len(),
                i <= n || n == 0,
                custom == exists|k: int| 1 <= k < i && k < n && placements@[k] is Some,
            decreases n - i,
        {
            if placements[i].is_some() {
                custom = true;
            }
            i += 1;
        }
        if !custom {
            return None;
        }
        let fallback = match direction {
            FlowChartDirection::Horizontal => FlowNodePlacement::RightOfPrevious,
            FlowChartDirection::Vertical => FlowNodePlacement::BelowPrevious,
        };
        let mut out: Vec<FlowNodePlacement> = Vec::new();
        let mut j: usize = 1;
        while j < n
            invariant
                1 <= j <= n,
                n == placements@.len(),
                fallback == default_placement(direction),
                out@.len() == j - 1,
                forall|k: int| 1 <= k < j ==> out@[k - 1] == placement_of(placements@, direction, k),
            decreases n - j,
        {
            let p = match placements[j] {
                Some(p) => p,
                None => fallback,
            };
            out.push(p);
            j += 1;
        }
        Some(out)
    }
}

/// Law: a node placed by its own choice goes where it says; a node that
/// names no placement follows the chart: right of the previous node in a
/// horizontal chart, below it in a vertical one.
pub proof fn lemma_placements_follow_the_chart(
    placements: Seq<Option<FlowNodePlacement>>,
    direction: FlowChartDirection,
    i: int,
)
    requires
        1 <= i < placements.len(),
    ensures
        placements[i] matches Some(p) ==> placement_of(placements, direction, i) == p,
        placements[i] is None && direction == FlowChartDirection::Horizontal ==> placement_of(
            placements,
            direction,
            i,
        ) == FlowNodePlacement::RightOfPrevious,
        placements[i] is None && direction == FlowChartDirection::Vertical ==> placement_of(
            placements,
            direction,
            i,
        ) == FlowNodePlacement::BelowPrevious,
{
}

} // verus!
