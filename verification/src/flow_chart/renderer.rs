//! Decisions of the flow chart renderer along the flow path.
use vstd::prelude::*;

verus! {

/// How a hop of the flow path is drawn in the highlight colour.
#[derive(Clone, Copy, Debug, PartialEq, Eq, Structural)]
pub enum HopDraw {
    /// Not yet reached: left in the plain edge colour.
    Skip,
    /// Being traversed: drawn up to the traversal point.
    Partial,
    /// Already traversed: drawn whole.
    Full,
}

/// How hop `hop` is drawn while hop `current` is under way; `finished`
/// when the flow has reached its end.
pub open spec fn hop_draw_of(hop: nat, current: nat, finished: bool) -> HopDraw {
    if hop < current {
        HopDraw::Full
    } else if hop == current {
        if finished {
            HopDraw::Full
        } else {
            HopDraw::Partial
        }
    } else {
        HopDraw::Skip
    }
}

/// The positions at which `node` occurs in `path`, in order.
pub open spec fn arrivals(path: Seq<usize>, node: usize) -> Seq<usize>
    decreases path.len(),
{
    if path.len() == 0 {
        Seq::empty()
    } else {
        let prev = arrivals(path.drop_last(), node);
        if path.last() == node {
            prev.push((path.len() - 1) as usize)
        } else {
            prev
        }
    }
}

/// Flow chart renderer: what it draws of the flow path.
pub struct FlowRenderer;

impl FlowRenderer {
    /// How hop `hop` of the flow path is drawn while hop `current_hop` is
    /// under way.
    pub fn hop_draw(hop: usize, current_hop: usize, finished: bool) -> (r: HopDraw)
        ensures
            r == hop_draw_of(hop as nat, current_hop as nat, finished),
    {
        if hop < current_hop {
            HopDraw::Full
        } else if hop == current_hop {
            if finished {
                HopDraw::Full
            } else {
                HopDraw::Partial
            }
        } else {
            HopDraw::Skip
        }
    }

    /// The positions along the flow path at which the pulse arrives at
    /// `node`: the moments its indication peaks.
    pub fn arrival_indices(flow_path: &Vec<usize>, node: usize) -> (r: Vec<usize>)
        ensures
            r@ == arrivals(flow_path@, node),
    {
        let mut out: Vec<usize> = Vec::new();
        let mut i: usize = 0;
        while i < flow_path.len()
            invariant
                i <= flow_path@.len(),
                out@ == arrivals(flow_path@.take(i as int), node),
            decreases flow_path@.len() - i,
        {
            proof {
                assert(flow_path@.take(i + 1).drop_last() =~= flow_path@.take(i as int));
            }
            if flow_path[i] == node {
                out.push(i);
            }
            i += 1;
        }
        proof {
            assert(flow_path@.take(i as int) =~= flow_path@);
        }
        out
    }
}

/// Law: the flow path is highlighted as a growing prefix: every hop before
/// the current one is drawn whole, no hop after it is drawn, and once the
/// flow has finished the current hop is drawn whole too.
pub proof fn lemma_highlight_is_prefix(hop: nat, other: nat, current: nat, finished: bool)
    requires
        other <= hop,
    ensures
        hop_draw_of(hop, current, finished) != HopDraw::Skip ==> hop_draw_of(other, current, finished)
            != HopDraw::Skip,
        hop_draw_of(hop, current, finished) == HopDraw::Partial ==> hop == current && !finished,
        other < hop && hop_draw_of(hop, current, finished) != HopDraw::Skip ==> hop_draw_of(
            other,
            current,
            finished,
        ) == HopDraw::Full,
{
}

/// Law: the arrivals of a node are exactly the positions where the path
/// visits it, in increasing order.
pub proof fn lemma_arrivals_are_visits(path: Seq<usize>, node: usize)
    requires
        path.len() <= usize::MAX,
    ensures
        forall|k: int|
            0 <= k < arrivals(path, node).len() ==> (#[trigger] arrivals(path, node)[k]) < path.len()
                && path[arrivals(path, node)[k] as int] == node,
        forall|i: int| 0 <= i < path.len() && path[i] == node ==> arrivals(path, node).contains(i as usize),
        forall|a: int, b: int|
            0 <= a < b < arrivals(path, node).len() ==> arrivals(path, node)[a] < arrivals(path, node)[b],
    decreases path.len(),
{
    if path.len() > 0 {
        let p = path.drop_last();
        lemma_arrivals_are_visits(p, node);
        let prev = arrivals(p, node);
        let all = arrivals(path, node);
        assert forall|k: int| 0 <= k < all.len() implies (#[trigger] all[k]) < path.len() && path[all[k] as int]
            == node by {
            if k < prev.len() {
                assert(all[k] == prev[k]);
                assert(path[prev[k] as int] == p[prev[k] as int]);
            }
        }
        assert forall|i: int| 0 <= i < path.len() && path[i] == node implies all.contains(i as usize) by {
            if i < p.len() {
                assert(p[i] == node);
                let j = choose|j: int| 0 <= j < prev.len() && prev[j] == i as usize;
                assert(all[j] == i as usize);
            } else {
                assert(all[all.len() - 1] == i as usize);
            }
        }
        assert forall|a: int, b: int| 0 <= a < b < all.len() implies all[a] < all[b] by {
            if b < prev.len() {
                assert(all[a] == prev[a] && all[b] == prev[b]);
            } else {
                assert(all[a] == prev[a]);
            }
        }
    }
}

} // verus!
