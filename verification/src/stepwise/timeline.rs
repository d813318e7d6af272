//! Phases of the steps and transitions of a story along its build
//! sequence: the unique steps of the journey in first-appearance order.
use vstd::prelude::*;

use crate::stepwise::model::{StepwiseModel, Transition};

verus! {

/// Where a step stands in the build: not yet shown, being revealed, or done.
/// The first step of the build sequence reveals over its whole segment; the
/// others over the later part of theirs, after the transition into them.
#[derive(Clone, Copy, Debug, PartialEq, Eq, Structural)]
pub enum StepPhase {
    Pending,
    Revealing { whole_segment: bool },
    Completed,
}

/// Where a transition stands in the build.
#[derive(Clone, Copy, Debug, PartialEq, Eq, Structural)]
pub enum TransitionPhase {
    Hidden,
    Drawing,
    Completed,
}

/// The last position at which `v` occurs in `seq`.
pub open spec fn last_index_of(seq: Seq<usize>, v: usize) -> Option<nat>
    decreases seq.len(),
{
    if seq.len() == 0 {
        None
    } else if seq.last() == v {
        Some((seq.len() - 1) as nat)
    } else {
        last_index_of(seq.drop_last(), v)
    }
}

pub proof fn lemma_last_index_of(seq: Seq<usize>, v: usize)
    ensures
        match last_index_of(seq, v) {
            Some(p) => p < seq.len() && seq[p as int] == v,
            None => !seq.contains(v),
        },
    decreases seq.len(),
{
    if seq.len() > 0 && seq.last() != v {
        lemma_last_index_of(seq.drop_last(), v);
        if seq.contains(v) {
            let i = choose|i: int| 0 <= i < seq.len() && seq[i] == v;
            assert(seq.drop_last()[i] == v);
        }
    }
}

/// The phase of a step whose last position in the sequence is `pos`, when
/// the segment of position `active` is under way.
pub open spec fn step_phase(pos: Option<nat>, active: nat) -> StepPhase {
    match pos {
        None => StepPhase::Pending,
        Some(i) => if i < active {
            StepPhase::Completed
        } else if i == active {
            StepPhase::Revealing { whole_segment: i == 0 }
        } else {
            StepPhase::Pending
        },
    }
}

/// The phase of a transition whose endpoints last occur at `from_pos` and
/// `to_pos`: a transition between consecutive positions is drawn during
/// the segment of its target; any other is shown once its source is done.
pub open spec fn transition_phase(from_pos: Option<nat>, to_pos: Option<nat>, active: nat) -> TransitionPhase {
    match (from_pos, to_pos) {
        (Some(f), Some(g)) => if f + 1 == g {
            if g < active {
                TransitionPhase::Completed
            } else if g == active {
                TransitionPhase::Drawing
            } else {
                TransitionPhase::Hidden
            }
        } else if f < active {
            TransitionPhase::Completed
        } else {
            TransitionPhase::Hidden
        },
        _ => TransitionPhase::Hidden,
    }
}

/// The steps and transitions of `model` refer to existing steps.
pub open spec fn model_indices_valid(model: StepwiseModel) -> bool {
    &&& forall|i: int|
        0 <= i < model.build_sequence.len() ==> #[trigger] model.build_sequence@[i] < model.steps.len()
    &&& forall|i: int|
        0 <= i < model.transitions.len() ==> (#[trigger] model.transitions@[i]).from
            < model.steps.len() && model.transitions@[i].to < model.steps.len()
}

/// How far along a step phase is: pending, revealing, completed.
pub open spec fn step_progress(p: StepPhase) -> nat {
    match p {
        StepPhase::Pending => 0,
        StepPhase::Revealing { .. } => 1,
        StepPhase::Completed => 2,
    }
}

/// How far along a transition phase is: hidden, drawing, completed.
pub open spec fn transition_progress(p: TransitionPhase) -> nat {
    match p {
        TransitionPhase::Hidden => 0,
        TransitionPhase::Drawing => 1,
        TransitionPhase::Completed => 2,
    }
}

/// Law: the build only moves forward. As the active segment advances, no
/// step and no transition goes back to an earlier phase; a step is revealed
/// during exactly one segment, its own; and a transition between
/// consecutive positions is drawn during exactly one segment, that of its
/// target.
pub proof fn lemma_phases_advance(pos: Option<nat>, to_pos: Option<nat>, a: nat, b: nat)
    requires
        a <= b,
    ensures
        step_progress(step_phase(pos, a)) <= step_progress(step_phase(pos, b)),
        transition_progress(transition_phase(pos, to_pos, a)) <= transition_progress(
            transition_phase(pos, to_pos, b),
        ),
        step_phase(pos, a) is Revealing ==> pos == Some(a),
        transition_phase(pos, to_pos, a) is Drawing ==> to_pos == Some(a),
{
}

/// Computes the build state of a story.
pub struct TimelineEngine;

impl TimelineEngine {
    /// Whether every step of the build sequence and every end of a
    /// transition is an existing step, as `phases` needs.
    pub fn indices_valid(model: &StepwiseModel) -> (r: bool)
        ensures
            r == model_indices_valid(*model),
    {
        let n = model.steps.len();
        let mut i: usize = 0;
        while i < model.build_sequence.len()
            invariant
                n == model.steps.len(),
                i <= model.build_sequence.len(),
                forall|k: int| 0 <= k < i ==> #[trigger] model.build_sequence@[k] < n,
            decreases model.build_sequence.len() - i,
        {
            if model.build_sequence[i] >= n {
                return false;
            }
            i += 1;
        }
        let mut t: usize = 0;
        while t < model.transitions.len()
            invariant
                n == model.steps.len(),
                t <= model.transitions.len(),
                forall|k: int| 0 <= k < model.build_sequence.len() ==> #[trigger] model.build_sequence@[k] < n,
                forall|k: int|
                    0 <= k < t ==> (#[trigger] model.transitions@[k]).from < n && model.transitions@[k].to < n,
            decreases model.transitions.len() - t,
        {
            if model.transitions[t].from >= n || model.transitions[t].to >= n {
                return false;
            }
            t += 1;
        }
        true
    }

    /// The phases of every step and transition while the segment of
    /// build-sequence position `active_idx` is under way.
    pub fn phases(model: &StepwiseModel, active_idx: usize) -> (r: (Vec<StepPhase>, Vec<TransitionPhase>))
        requires
            model_indices_valid(*model),
        ensures
            r.0.len() == model.steps.len(),
            forall|v: int|
                0 <= v < model.steps.len() ==> #[trigger] r.0@[v] == step_phase(
                    last_index_of(model.build_sequence@, v as usize),
                    active_idx as nat,
                ),
            r.1.len() == model.transitions.len(),
            forall|i: int|
                0 <= i < model.transitions.len() ==> #[trigger] r.1@[i] == transition_phase(
                    last_index_of(model.build_sequence@, model.transitions@[i].from),
                    last_index_of(model.build_sequence@, model.transitions@[i].to),
                    active_idx as nat,
                ),
    {
        let n_steps = model.steps.len();
        let seq = &model.build_sequence;
        let ghost sv = seq@;
        let mut seq_index: Vec<Option<usize>> = Vec::new();
        let mut steps: Vec<StepPhase> = Vec::new();
        let mut v: usize = 0;
        while v < n_steps
            invariant
                v <= n_steps,
                seq_index.len() == v,
                steps.len() == v,
                forall|k: int| 0 <= k < v ==> #[trigger] seq_index@[k] is None,
                forall|k: int| 0 <= k < v ==> #[trigger] steps@[k] == StepPhase::Pending,
            decreases n_steps - v,
        {
            seq_index.push(None);
            steps.push(StepPhase::Pending);
            v += 1;
        }
        let mut i: usize = 0;
        while i < seq.len()
            invariant
                sv == seq@,
                n_steps == model.steps.len(),
                model_indices_valid(*model),
                seq == &model.build_sequence,
                i <= seq.len(),
                seq_index.len() == n_steps,
                steps.len() == n_steps,
                forall|k: int|
                    0 <= k < n_steps ==> #[trigger] seq_index@[k] == match last_index_of(
                        sv.take(i as int),
                        k as usize,
                    ) {
                        Some(p) => Some(p as usize),
                        None => None::<usize>,
                    },
                forall|k: int|
                    0 <= k < n_steps ==> #[trigger] steps@[k] == step_phase(
                        last_index_of(sv.take(i as int), k as usize),
                        active_idx as nat,
                    ),
            decreases seq.len() - i,
        {
            let step_idx = seq[i];
            proof {
                assert(sv.take(i + 1).drop_last() =~= sv.take(i as int));
                assert(sv.take(i + 1).last() == step_idx);
            }
            seq_index.set(step_idx, Some(i));
            let phase = if i < active_idx {
                StepPhase::Completed
            } else if i == active_idx {
                StepPhase::Revealing { whole_segment: i == 0 }
            } else {
                StepPhase::Pending
            };
            steps.set(step_idx, phase);
            i += 1;
        }
        proof {
            assert(sv.take(seq.len() as int) =~= sv);
        }
        let mut transitions: Vec<TransitionPhase> = Vec::new();
        let mut t: usize = 0;
        while t < model.transitions.len()
            invariant
                sv == model.build_sequence@,
                model_indices_valid(*model),
                n_steps == model.steps.len(),
                seq_index.len() == n_steps,
                forall|k: int|
                    0 <= k < n_steps ==> #[trigger] seq_index@[k] == match last_index_of(sv, k as usize) {
                        Some(p) => Some(p as usize),
                        None => None::<usize>,
                    },
                t <= model.transitions.len(),
                transitions.len() == t,
                forall|k: int|
                    0 <= k < t ==> #[trigger] transitions@[k] == transition_phase(
                        last_index_of(sv, model.transitions@[k].from),
                        last_index_of(sv, model.transitions@[k].to),
                        active_idx as nat,
                    ),
            decreases model.transitions.len() - t,
        {
            let transition: &Transition = &model.transitions[t];
            proof {
                lemma_last_index_of(sv, transition.from);
                lemma_last_index_of(sv, transition.to);
            }
            let fi = seq_index[transition.from];
            let ti = seq_index[transition.to];
            proof {
                assert(sv.len() == model.build_sequence.len());
                let fp = last_index_of(sv, transition.from);
                let tp = last_index_of(sv, transition.to);
                assert(fi == match fp {
                    Some(p) => Some(p as usize),
                    None => None::<usize>,
                });
                assert(ti == match tp {
                    Some(p) => Some(p as usize),
                    None => None::<usize>,
                });
                if fp is Some {
                    assert(fi->0 == fp->0);
                    assert(fi->0 < sv.len());
                }
                if tp is Some {
                    assert(ti->0 == tp->0);
                }
            }
            let phase = match (fi, ti) {
                (Some(from_i), Some(to_i)) => {
                    if from_i + 1 == to_i {
                        if to_i < active_idx {
                            TransitionPhase::Completed
                        } else if to_i == active_idx {
                            TransitionPhase::Drawing
                        } else {
                            TransitionPhase::Hidden
                        }
                    } else if from_i < active_idx {
                        TransitionPhase::Completed
                    } else {
                        TransitionPhase::Hidden
                    }
                },
                _ => TransitionPhase::Hidden,
            };
            transitions.push(phase);
            t += 1;
        }
        (steps, transitions)
    }

    /// The state once the build has finished: every step and transition is
    /// completed.
    pub fn completed(model: &StepwiseModel) -> (r: (Vec<StepPhase>, Vec<TransitionPhase>))
        ensures
            r.0.len() == model.steps.len(),
            forall|v: int| 0 <= v < r.0.len() ==> #[trigger] r.0@[v] == StepPhase::Completed,
            r.1.len() == model.transitions.len(),
            forall|i: int| 0 <= i < r.1.len() ==> #[trigger] r.1@[i] == TransitionPhase::Completed,
    {
        let mut steps: Vec<StepPhase> = Vec::new();
        let mut i: usize = 0;
        while i < model.steps.len()
            invariant
                i <= model.steps.len(),
                steps.len() == i,
                forall|v: int| 0 <= v < i ==> #[trigger] steps@[v] == StepPhase::Completed,
            decreases model.steps.len() - i,
        {
            steps.push(StepPhase::Completed);
            i += 1;
        }
        let mut transitions: Vec<TransitionPhase> = Vec::new();
        let mut j: usize = 0;
        while j < model.transitions.len()
            invariant
                j <= model.transitions.len(),
                transitions.len() == j,
                forall|v: int| 0 <= v < j ==> #[trigger] transitions@[v] == TransitionPhase::Completed,
            decreases model.transitions.len() - j,
        {
            transitions.push(TransitionPhase::Completed);
            j += 1;
        }
        (steps, transitions)
    }
}

/// Law: a transition between steps that are not consecutive in the build
/// (a skip or a back edge) appears as soon as its source step is done,
/// whatever the position of its target: it is completed exactly when its
/// source's position is before the active one, and hidden otherwise; it
/// is never drawn gradually. A transition with an end outside the build
/// stays hidden.
pub proof fn lemma_non_adjacent_transitions_follow_source(f: nat, g: nat, active: nat)
    requires
        f + 1 != g,
    ensures
        transition_phase(Some(f), Some(g), active) == TransitionPhase::Completed <==> f < active,
        transition_phase(Some(f), Some(g), active) != TransitionPhase::Completed ==> transition_phase(
            Some(f),
            Some(g),
            active,
        ) == TransitionPhase::Hidden,
        transition_phase(None, Some(g), active) == TransitionPhase::Hidden,
        transition_phase(Some(f), None, active) == TransitionPhase::Hidden,
{
}

} // verus!
