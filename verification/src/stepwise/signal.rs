//! The signal that travels along a story's journey, and the grid walk of a
//! routed transition.
//!
//! The journey of `n` positions is cut into `2n - 1` segments: segment `2h`
//! pulses the step at position `h`, segment `2h + 1` carries the signal from
//! position `h` to position `h + 1`.
use vstd::prelude::*;

use crate::stepwise::model::{Direction, StepwiseModel};

verus! {

/// The primary axis along which the steps of a story are laid out.
#[derive(Clone, Copy, Debug, PartialEq, Eq, Structural)]
pub enum StepwiseDirection {
    Horizontal,
    Vertical,
}

impl Default for StepwiseDirection {
    fn default() -> (d: Self)
        ensures
            d == StepwiseDirection::Horizontal,
    {
        StepwiseDirection::Horizontal
    }
}

/// What the signal does to one step while a given segment is under way.
#[derive(Clone, Copy, Debug, PartialEq, Eq, Structural)]
pub struct NodeSignal {
    /// The segment pulses this step.
    pub pulsing: bool,
    /// The signal has reached this step at least once.
    pub visited: bool,
}

/// The hop that the signal is travelling during an odd segment.
#[derive(Clone, Copy, Debug, PartialEq, Eq, Structural)]
pub struct SignalHop {
    pub from: usize,
    pub to: usize,
    /// The first transition from `from` to `to`, when there is one.
    pub transition: Option<usize>,
}

/// The signal state of `node` while `segment` is under way.
pub fn node_signal(model: &StepwiseModel, node: usize, segment: usize) -> (r: NodeSignal)
    requires
        2 * model.sequence.len() <= usize::MAX,
    ensures
        r.pulsing == exists|h: int|
            0 <= h < model.sequence.len() && model.sequence@[h] == node && 2 * h == segment,
        r.visited == exists|h: int|
            0 <= h < model.sequence.len() && model.sequence@[h] == node && 2 * h <= segment,
{
    let seq = &model.sequence;
    let n = seq.len();
    let mut pulsing = false;
    let mut visited = false;
    let mut h: usize = 0;
    while h < n
        invariant
            seq == &model.sequence,
            n == seq.len(),
            2 * n <= usize::MAX,
            h <= n,
            pulsing == exists|k: int| 0 <= k < h && seq@[k] == node && 2 * k == segment,
            visited == exists|k: int| 0 <= k < h && seq@[k] == node && 2 * k <= segment,
        decreases n - h,
    {
        if seq[h] == node {
            let pulse_segment = h * 2;
            if segment >= pulse_segment {
                visited = true;
            }
            if segment == pulse_segment {
                pulsing = true;
            }
        }
        h += 1;
    }
    NodeSignal { pulsing, visited }
}

/// Whether the signal has passed along transition `transition_idx` by
/// `segment`: some hop of the journey follows it and that hop's segment
/// has begun.
pub fn is_transition_signaled(model: &StepwiseModel, transition_idx: usize, segment: usize) -> (r: bool)
    requires
        transition_idx < model.transitions.len(),
        2 * model.sequence.len() <= usize::MAX,
    ensures
        r == exists|h: int|
            0 <= h && h + 1 < model.sequence.len() && #[trigger] model.sequence@[h]
                == model.transitions@[transition_idx as int].from && model.sequence@[h + 1]
                == model.transitions@[transition_idx as int].to && 2 * h + 1 <= segment,
{
    let seq = &model.sequence;
    let n = seq.len();
    let from = model.transitions[transition_idx].from;
    let to = model.transitions[transition_idx].to;
    if n < 2 {
        return false;
    }
    let mut h: usize = 0;
    while h < n - 1
        invariant
            seq == &model.sequence,
            n == seq.len(),
            n >= 2,
            2 * n <= usize::MAX,
            h <= n - 1,
            transition_idx < model.transitions.len(),
            from == model.transitions@[transition_idx as int].from,
            to == model.transitions@[transition_idx as int].to,
            forall|k: int|
                0 <= k < h ==> !(#[trigger] seq@[k] == from && seq@[k + 1] == to && 2 * k + 1
                    <= segment),
        decreases n - 1 - h,
    {
        if seq[h] == from && seq[h + 1] == to {
            let transit_segment = h * 2 + 1;
            if segment >= transit_segment {
                proof {
                    assert(model.sequence@[h as int] == model.transitions@[transition_idx as int].from);
                    assert(model.sequence@[h + 1] == model.transitions@[transition_idx as int].to);
                }
                return true;
            }
        }
        h += 1;
    }
    false
}

/// The hop under way during `segment`, when the segment is odd; `None`
/// during the pulse of a step.
pub fn signal_hop(model: &StepwiseModel, segment: usize) -> (r: Option<SignalHop>)
    requires
        model.sequence.len() >= 1,
        segment <= 2 * model.sequence.len() - 2,
    ensures
        match r {
            None => segment % 2 == 0,
            Some(hop) => {
                &&& segment % 2 == 1
                &&& hop.from == model.sequence@[(segment - 1) / 2]
                &&& hop.to == model.sequence@[(segment - 1) / 2 + 1]
                &&& match hop.transition {
                    Some(t) => {
                        &&& t < model.transitions.len()
                        &&& model.transitions@[t as int].from == hop.from
                        &&& model.transitions@[t as int].to == hop.to
                        &&& forall|k: int|
                            0 <= k < t ==> !(model.transitions@[k].from == hop.from
                                && model.transitions@[k].to == hop.to)
                    },
                    None => forall|k: int|
                        0 <= k < model.transitions.len() ==> !(model.transitions@[k].from
                            == hop.from && model.transitions@[k].to == hop.to),
                }
            },
        },
{
    if segment % 2 != 1 {
        return None;
    }
    let hop = (segment - 1) / 2;
    assert(hop + 1 < model.sequence.len());
    let from = model.sequence[hop];
    let to = model.sequence[hop + 1];
    assert(segment % 2 == 1);
    assert(hop == (segment - 1) / 2);
    let mut k: usize = 0;
    while k < model.transitions.len()
        invariant
            k <= model.transitions.len(),
            model.sequence.len() >= 1,
            segment <= 2 * model.sequence.len() - 2,
            segment % 2 == 1,
            from == model.sequence@[(segment - 1) / 2],
            to == model.sequence@[(segment - 1) / 2 + 1],
            forall|i: int|
                0 <= i < k ==> !(model.transitions@[i].from == from && model.transitions@[i].to
                    == to),
        decreases model.transitions.len() - k,
    {
        if model.transitions[k].from == from && model.transitions[k].to == to {
            return Some(SignalHop { from, to, transition: Some(k) });
        }
        k += 1;
    }
    Some(SignalHop { from, to, transition: None })
}

/// One point of a routed transition's walk: the centre line of a step rank
/// on the primary axis, or the lane past the spanned steps on the secondary
/// axis (`positive`: above for a horizontal layout, right for a vertical
/// one).
#[derive(Clone, Copy, Debug, PartialEq, Eq, Structural)]
pub enum RouteMove {
    ToRank(usize),
    ToLane { positive: bool },
}

/// Whether `d` moves along the primary axis of `layout`, and by how much.
pub open spec fn rank_delta(layout: StepwiseDirection, d: Direction) -> Option<int> {
    match (layout, d) {
        (StepwiseDirection::Horizontal, Direction::Left) => Some(-1),
        (StepwiseDirection::Horizontal, Direction::Right) => Some(1),
        (StepwiseDirection::Vertical, Direction::Up) => Some(-1),
        (StepwiseDirection::Vertical, Direction::Down) => Some(1),
        _ => None,
    }
}

/// The virtual rank after the first `k` directions of `route`, starting at
/// rank `from`; it may leave the range of existing steps.
pub open spec fn virtual_rank(layout: StepwiseDirection, from: int, route: Seq<Direction>, k: nat) -> int
    decreases k,
{
    if k == 0 {
        from
    } else {
        let prev = virtual_rank(layout, from, route, (k - 1) as nat);
        match rank_delta(layout, route[k - 1]) {
            Some(d) => prev + d,
            None => prev,
        }
    }
}

/// `r` clamped to the ranks `0..n`.
pub open spec fn clamp_rank(r: int, n: nat) -> int {
    if r < 0 {
        0
    } else if r > n - 1 {
        n - 1
    } else {
        r
    }
}

/// The move that the `k`-th direction of `route` makes.
pub open spec fn route_move(layout: StepwiseDirection, from: int, route: Seq<Direction>, n: nat, k: nat) -> RouteMove {
    match rank_delta(layout, route[k as int]) {
        Some(_) => RouteMove::ToRank(clamp_rank(virtual_rank(layout, from, route, k + 1), n) as usize),
        None => RouteMove::ToLane {
            positive: route[k as int] == Direction::Up || route[k as int] == Direction::Right,
        },
    }
}

/// Walks the directions of a route from step `from_idx` over a layout of
/// `n` steps: primary-axis directions step across ranks (clamped to the
/// existing steps), secondary-axis directions move to a lane.
pub fn route_moves(layout: StepwiseDirection, from_idx: usize, n: usize, route: &Vec<Direction>) -> (r: Vec<RouteMove>)
    requires
        from_idx < n,
        n + route.len() <= isize::MAX,
    ensures
        r.len() == route.len(),
        forall|k: int|
            0 <= k < route.len() ==> #[trigger] r@[k] == route_move(
                layout,
                from_idx as int,
                route@,
                n as nat,
                k as nat,
            ),
{
    let mut moves: Vec<RouteMove> = Vec::new();
    let mut virtual_idx: isize = from_idx as isize;
    let last_rank: isize = n as isize - 1;
    let mut k: usize = 0;
    while k < route.len()
        invariant
            k <= route.len(),
            from_idx < n,
            n + route.len() <= isize::MAX,
            last_rank == n - 1,
            moves.len() == k,
            virtual_idx == virtual_rank(layout, from_idx as int, route@, k as nat),
            from_idx - k <= virtual_idx <= from_idx + k,
            forall|i: int|
                0 <= i < k ==> #[trigger] moves@[i] == route_move(
                    layout,
                    from_idx as int,
                    route@,
                    n as nat,
                    i as nat,
                ),
        decreases route.len() - k,
    {
        let dir = route[k];
        let step: isize = match (layout, dir) {
            (StepwiseDirection::Horizontal, Direction::Left) => -1,
            (StepwiseDirection::Horizontal, Direction::Right) => 1,
            (StepwiseDirection::Vertical, Direction::Up) => -1,
            (StepwiseDirection::Vertical, Direction::Down) => 1,
            _ => 0,
        };
        let mv = if step != 0 {
            virtual_idx += step;
            let clamped = if virtual_idx < 0 {
                0
            } else if virtual_idx > last_rank {
                last_rank
            } else {
                virtual_idx
            };
            RouteMove::ToRank(clamped as usize)
        } else {
            RouteMove::ToLane { positive: dir == Direction::Up || dir == Direction::Right }
        };
        moves.push(mv);
        k += 1;
    }
    moves
}

/// Law: each direction of a route moves the way it names. Along the
/// layout's axis (left and right in a horizontal layout, up and down in a
/// vertical one) it moves to a step rank; across it, to the lane on the
/// named side: up and right are the positive lanes, down and left the
/// negative ones.
pub proof fn lemma_route_moves_follow_directions(
    layout: StepwiseDirection,
    from: int,
    route: Seq<Direction>,
    n: nat,
    k: nat,
)
    requires
        k < route.len(),
    ensures
        layout == StepwiseDirection::Horizontal && (route[k as int] == Direction::Left || route[k as int]
            == Direction::Right) ==> (route_move(layout, from, route, n, k) is ToRank),
        layout == StepwiseDirection::Vertical && (route[k as int] == Direction::Up || route[k as int]
            == Direction::Down) ==> (route_move(layout, from, route, n, k) is ToRank),
        layout == StepwiseDirection::Horizontal && route[k as int] == Direction::Up ==> route_move(
            layout,
            from,
            route,
            n,
            k,
        ) == (RouteMove::ToLane { positive: true }),
        layout == StepwiseDirection::Horizontal && route[k as int] == Direction::Down ==> route_move(
            layout,
            from,
            route,
            n,
            k,
        ) == (RouteMove::ToLane { positive: false }),
        layout == StepwiseDirection::Vertical && route[k as int] == Direction::Right ==> route_move(
            layout,
            from,
            route,
            n,
            k,
        ) == (RouteMove::ToLane { positive: true }),
        layout == StepwiseDirection::Vertical && route[k as int] == Direction::Left ==> route_move(
            layout,
            from,
            route,
            n,
            k,
        ) == (RouteMove::ToLane { positive: false }),
{
}

} // verus!
