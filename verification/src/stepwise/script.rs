//! A fluent builder for stepwise stories.
use std::collections::HashSet;
use vstd::prelude::*;

use crate::stepwise::model::{Direction, Step, StepwiseModel, Transition};
use crate::stepwise::order::{
    endpoints_below, lemma_acyclic_order_is_permutation, lemma_push_contains,
    lemma_push_no_duplicates, topological_order, topological_sort,
};

verus! {

broadcast use vstd::std_specs::hash::group_hash_axioms;

/// A connection as the builder records it: source, target, optional route.
pub type Connection = (usize, usize, Option<Vec<Direction>>);

/// Source and target of each connection.
pub open spec fn connection_ends(conns: Seq<Connection>) -> Seq<(usize, usize)> {
    conns.map_values(|c: Connection| (c.0, c.1))
}

/// The unique elements of `s` in first-appearance order.
pub open spec fn first_occurrences(s: Seq<usize>) -> Seq<usize>
    decreases s.len(),
{
    if s.len() == 0 {
        Seq::empty()
    } else {
        let prev = first_occurrences(s.drop_last());
        if s.drop_last().contains(s.last()) {
            prev
        } else {
            prev.push(s.last())
        }
    }
}

/// Law: deduplication keeps exactly the elements of `s`, each once; a
/// sequence without repeats is kept as it is.
pub proof fn lemma_first_occurrences(s: Seq<usize>)
    ensures
        first_occurrences(s).no_duplicates(),
        forall|x: usize| #[trigger] first_occurrences(s).contains(x) <==> s.contains(x),
        s.no_duplicates() ==> first_occurrences(s) == s,
    decreases s.len(),
{
    if s.len() > 0 {
        let p = s.drop_last();
        let x = s.last();
        lemma_first_occurrences(p);
        assert(s =~= p.push(x));
        assert forall|y: usize| #[trigger] first_occurrences(s).contains(y) <==> s.contains(y) by {
            lemma_push_contains(first_occurrences(p), x, y);
            lemma_push_contains(p, x, y);
        }
        if !p.contains(x) {
            lemma_push_no_duplicates(first_occurrences(p), x);
        }
        if s.no_duplicates() {
            assert(p.no_duplicates());
            assert(!p.contains(x)) by {
                if p.contains(x) {
                    let i = choose|i: int| 0 <= i < p.len() && p[i] == x;
                    assert(s[i] == s[s.len() - 1]);
                }
            }
        }
    }
}

/// The linear chain `0, 1, ..., n - 1`.
pub open spec fn chain(n: nat) -> Seq<usize> {
    Seq::new(n, |i: int| i as usize)
}

/// The journey of a script: the explicit sequence when one was given, else
/// the linear chain when no connection was made, else the topological
/// order of the connections.
pub open spec fn script_sequence(
    n: nat,
    conns: Seq<Connection>,
    explicit: Option<Seq<usize>>,
) -> Seq<usize> {
    match explicit {
        Some(s) => s,
        None => if conns.len() == 0 {
            chain(n)
        } else {
            topological_order(n, connection_ends(conns))
        },
    }
}

/// The transitions of a script: the linear chain `i -> i + 1` when no
/// connection was made, else the connections in the order they were made.
pub open spec fn script_transition_ok(n: nat, conns: Seq<Connection>, t: Seq<Transition>) -> bool {
    if conns.len() == 0 {
        &&& t.len() == if n == 0 {
            0
        } else {
            n - 1
        }
        &&& forall|i: int|
            0 <= i < t.len() ==> (#[trigger] t[i]).from == i && t[i].to == i + 1 && t[i].route
                is None
    } else {
        &&& t.len() == conns.len()
        &&& forall|i: int|
            0 <= i < t.len() ==> (#[trigger] t[i]).from == conns[i].0 && t[i].to == conns[i].1
                && t[i].route == conns[i].2
    }
}

/// Returns unique elements in first-appearance order.
pub fn deduplicate(seq: &Vec<usize>) -> (out: Vec<usize>)
    ensures
        out@ == first_occurrences(seq@),
{
    let mut seen: HashSet<usize> = HashSet::new();
    let mut out: Vec<usize> = Vec::new();
    let mut i: usize = 0;
    while i < seq.len()
        invariant
            i <= seq.len(),
            seen@ == seq@.take(i as int).to_set(),
            out@ == first_occurrences(seq@.take(i as int)),
        decreases seq.len() - i,
    {
        let x = seq[i];
        proof {
            let a = seq@.take(i as int);
            let b = seq@.take(i + 1);
            assert(b.drop_last() =~= a);
            assert(b.last() == x);
            assert(b.to_set() =~= a.to_set().insert(x)) by {
                assert forall|y: usize| b.to_set().contains(y) implies a.to_set().insert(x).contains(
                    y,
                ) by {
                    let k = choose|k: int| 0 <= k < b.len() && b[k] == y;
                    if k < i {
                        assert(a[k] == y);
                    }
                }
                assert forall|y: usize| a.to_set().insert(x).contains(y) implies b.to_set().contains(
                    y,
                ) by {
                    if y == x {
                        assert(b[i as int] == x);
                    } else {
                        let k = choose|k: int| 0 <= k < a.len() && a[k] == y;
                        assert(b[k] == y);
                    }
                }
            }
        }
        if seen.insert(x) {
            out.push(x);
        }
        i += 1;
    }
    proof {
        assert(seq@.take(seq.len() as int) =~= seq@);
    }
    out
}

/// A fluent builder for defining stepwise stories: steps, the connections
/// between them, and the sequence of the journey.
pub struct ScriptBuilder {
    steps: Vec<Step>,
    explicit_connections: Vec<Connection>,
    has_explicit_connections: bool,
    explicit_sequence: Option<Vec<usize>>,
}

/// Configures the transition that `connect` has just recorded.
pub struct ConnectionBuilder<'a> {
    pub builder: &'a mut ScriptBuilder,
    pub transition_index: usize,
}

impl ScriptBuilder {
    /// Every connection joins existing steps, and the flag that suppresses
    /// the default chain is set exactly when a connection was made.
    pub closed spec fn wf(self) -> bool {
        &&& self.has_explicit_connections == (self.explicit_connections.len() > 0)
        &&& endpoints_below(connection_ends(self.explicit_connections@), self.steps.len() as nat)
    }

    /// The steps added so far.
    pub closed spec fn steps_view(self) -> Seq<Step> {
        self.steps@
    }

    /// The connections made so far, in order.
    pub closed spec fn connections_view(self) -> Seq<Connection> {
        self.explicit_connections@
    }

    /// The explicit journey, when one was given.
    pub closed spec fn sequence_view(self) -> Option<Seq<usize>> {
        match self.explicit_sequence {
            Some(v) => Some(v@),
            None => None,
        }
    }

    /// The number of steps added so far: the valid step indices for
    /// `connect` lie below it.
    pub fn step_count(&self) -> (n: usize)
        ensures
            n == self.steps_view().len(),
    {
        self.steps.len()
    }

    pub fn new() -> (b: Self)
        ensures
            b.wf(),
            b.steps_view() == Seq::<Step>::empty(),
            b.connections_view() == Seq::<Connection>::empty(),
            b.sequence_view() is None,
    {
        ScriptBuilder {
            steps: Vec::new(),
            explicit_connections: Vec::new(),
            has_explicit_connections: false,
            explicit_sequence: None,
        }
    }

    /// Adds a labeled step; returns its index, the number of steps before it.
    pub fn step(&mut self, label: &str) -> (idx: usize)
        requires
            old(self).wf(),
        ensures
            final(self).wf(),
            idx == old(self).steps_view().len(),
            final(self).steps_view().len() == old(self).steps_view().len() + 1,
            final(self).steps_view().drop_last() == old(self).steps_view(),
            final(self).steps_view().last().label@ == label@,
            !final(self).steps_view().last().has_content,
            final(self).connections_view() == old(self).connections_view(),
            final(self).sequence_view() == old(self).sequence_view(),
    {
        self.push_step(label, false)
    }

    /// Adds a step whose projected content the renderer keeps beside the
    /// model; returns its index.
    pub fn step_with_content(&mut self, label: &str) -> (idx: usize)
        requires
            old(self).wf(),
        ensures
            final(self).wf(),
            idx == old(self).steps_view().len(),
            final(self).steps_view().len() == old(self).steps_view().len() + 1,
            final(self).steps_view().drop_last() == old(self).steps_view(),
            final(self).steps_view().last().label@ == label@,
            final(self).steps_view().last().has_content,
            final(self).connections_view() == old(self).connections_view(),
            final(self).sequence_view() == old(self).sequence_view(),
    {
        self.push_step(label, true)
    }

    fn push_step(&mut self, label: &str, has_content: bool) -> (idx: usize)
        requires
            old(self).wf(),
        ensures
            final(self).wf(),
            idx == old(self).steps_view().len(),
            final(self).steps_view().len() == old(self).steps_view().len() + 1,
            final(self).steps_view().drop_last() == old(self).steps_view(),
            final(self).steps_view().last().label@ == label@,
            final(self).steps_view().last().has_content == has_content,
            final(self).connections_view() == old(self).connections_view(),
            final(self).sequence_view() == old(self).sequence_view(),
    {
        let idx = self.steps.len();
        let step = Step { label: label.to_owned(), has_content };
        self.steps.push(step);
        proof {
            let ends = connection_ends(self.explicit_connections@);
            assert forall|j: int| 0 <= j < ends.len() implies ends[j].0 < self.steps.len()
                && ends[j].1 < self.steps.len() by {}
            assert(self.steps@.drop_last() =~= old(self).steps@);
        }
        idx
    }

    /// Defines a directional transition from one step to another. Making
    /// any connection suppresses the default linear chain.
    pub fn connect(&mut self, from: usize, to: usize) -> (c: ConnectionBuilder<'_>)
        requires
            old(self).wf(),
            from < old(self).steps_view().len(),
            to < old(self).steps_view().len(),
        ensures
            c.builder.wf(),
            c.transition_index == old(self).connections_view().len(),
            c.builder.steps_view() == old(self).steps_view(),
            c.builder.connections_view() == old(self).connections_view().push(
                (from, to, None::<Vec<Direction>>),
            ),
            c.builder.sequence_view() == old(self).sequence_view(),
            *final(self) == *final(c.builder),
    {
        self.explicit_connections.push((from, to, None));
        proof {
            let ends = connection_ends(self.explicit_connections@);
            let old_ends = connection_ends(old(self).explicit_connections@);
            assert forall|j: int| 0 <= j < ends.len() implies ends[j].0 < self.steps.len()
                && ends[j].1 < self.steps.len() by {
                if j < old_ends.len() {
                    assert(ends[j] == old_ends[j]);
                }
            }
        }
        self.has_explicit_connections = true;
        let transition_index = self.explicit_connections.len() - 1;
        ConnectionBuilder { builder: self, transition_index }
    }

    /// Overrides the automatically computed story sequence.
    pub fn with_sequence(&mut self, sequence: Vec<usize>) -> (r: &mut Self)
        requires
            old(self).wf(),
        ensures
            r.wf(),
            r.steps_view() == old(self).steps_view(),
            r.connections_view() == old(self).connections_view(),
            r.sequence_view() == Some(sequence@),
            *final(self) == *final(r),
    {
        self.explicit_sequence = Some(sequence);
        self
    }

    /// Builds the story: the explicit sequence, the linear chain, or the
    /// topological order of the connections; the transitions; and the
    /// deduplicated build sequence.
    pub fn build(self) -> (m: StepwiseModel)
        requires
            self.wf(),
        ensures
            m.steps@ == self.steps_view(),
            m.sequence@ == script_sequence(
                self.steps_view().len(),
                self.connections_view(),
                self.sequence_view(),
            ),
            script_transition_ok(self.steps_view().len(), self.connections_view(), m.transitions@),
            m.build_sequence@ == first_occurrences(m.sequence@),
    {
        let n = self.steps.len();
        let sequence = match self.explicit_sequence {
            Some(seq) => seq,
            None => {
                if !self.has_explicit_connections {
                    let mut seq: Vec<usize> = Vec::new();
                    let mut i: usize = 0;
                    while i < n
                        invariant
                            i <= n,
                            seq@ == chain(i as nat),
                        decreases n - i,
                    {
                        seq.push(i);
                        proof {
                            assert(seq@ =~= chain((i + 1) as nat));
                        }
                        i += 1;
                    }
                    seq
                } else {
                    let mut pairs: Vec<(usize, usize)> = Vec::new();
                    let mut j: usize = 0;
                    while j < self.explicit_connections.len()
                        invariant
                            j <= self.explicit_connections.len(),
                            pairs@ == connection_ends(self.explicit_connections@.take(j as int)),
                        decreases self.explicit_connections.len() - j,
                    {
                        let from = self.explicit_connections[j].0;
                        let to = self.explicit_connections[j].1;
                        pairs.push((from, to));
                        proof {
                            assert(pairs@ =~= connection_ends(
                                self.explicit_connections@.take(j + 1),
                            ));
                        }
                        j += 1;
                    }
                    proof {
                        assert(self.explicit_connections@.take(
                            self.explicit_connections.len() as int,
                        ) =~= self.explicit_connections@);
                    }
                    topological_sort(n, &pairs)
                }
            },
        };
        let mut transitions: Vec<Transition> = Vec::new();
        if !self.has_explicit_connections {
            let last = if n == 0 {
                0
            } else {
                n - 1
            };
            let mut i: usize = 0;
            while i < last
                invariant
                    i <= last,
                    transitions.len() == i,
                    forall|k: int|
                        0 <= k < i ==> (#[trigger] transitions@[k]).from == k && transitions@[k].to
                            == k + 1 && transitions@[k].route is None,
                decreases last - i,
            {
                transitions.push(Transition { from: i, to: i + 1, route: None });
                i += 1;
            }
        } else {
            let mut rest = self.explicit_connections;
            let ghost cv = rest@;
            let mut collected: Vec<Transition> = Vec::new();
            while rest.len() > 0
                invariant
                    collected.len() + rest.len() == cv.len(),
                    rest@ == cv.skip(collected.len() as int),
                    forall|k: int|
                        0 <= k < collected.len() ==> (#[trigger] collected@[k]).from == cv[k].0
                            && collected@[k].to == cv[k].1 && collected@[k].route == cv[k].2,
                decreases rest.len(),
            {
                let c = rest.remove(0);
                proof {
                    assert(c == cv[collected.len() as int]);
                    assert(rest@ =~= cv.skip(collected.len() + 1));
                }
                collected.push(Transition { from: c.0, to: c.1, route: c.2 });
            }
            transitions = collected;
        }
        let build_sequence = deduplicate(&sequence);
        StepwiseModel { steps: self.steps, transitions, build_sequence, sequence }
    }
}

/// Law: every connection of a script joins two of its steps (`connect`
/// accepts no other).
pub proof fn lemma_connections_join_steps(b: ScriptBuilder)
    requires
        b.wf(),
    ensures
        forall|j: int|
            0 <= j < b.connections_view().len() ==> (#[trigger] b.connections_view()[j]).0
                < b.steps_view().len() && b.connections_view()[j].1 < b.steps_view().len(),
        b.steps_view().len() <= usize::MAX,
{
    let ends = connection_ends(b.connections_view());
    assert forall|j: int| 0 <= j < b.connections_view().len() implies (#[trigger] b.connections_view()[j]).0
        < b.steps_view().len() && b.connections_view()[j].1 < b.steps_view().len() by {
        assert(ends[j] == (b.connections_view()[j].0, b.connections_view()[j].1));
    }
}

/// Law: a script with no explicit sequence whose connections admit a
/// ranking of the steps (each connection goes from a lower rank to a
/// higher one, that is, the connections form no cycle) builds a journey
/// that is a permutation of its steps, and its build sequence is that same
/// journey.
pub proof fn lemma_ranked_script_is_permutation(b: ScriptBuilder, rank: spec_fn(usize) -> nat)
    requires
        b.wf(),
        b.sequence_view() is None,
        forall|j: int|
            0 <= j < b.connections_view().len() ==> rank((#[trigger] b.connections_view()[j]).0) < rank(
                b.connections_view()[j].1,
            ),
    ensures
        ({
            let seq = script_sequence(b.steps_view().len(), b.connections_view(), b.sequence_view());
            &&& seq.len() == b.steps_view().len()
            &&& seq.no_duplicates()
            &&& forall|v: usize| v < b.steps_view().len() ==> #[trigger] seq.contains(v)
            &&& first_occurrences(seq) == seq
        }),
{
    let n = b.steps_view().len();
    let conns = b.connections_view();
    let seq = script_sequence(n, conns, b.sequence_view());
    lemma_connections_join_steps(b);
    if conns.len() == 0 {
        assert(seq == chain(n));
        assert forall|v: usize| v < n implies #[trigger] seq.contains(v) by {
            assert(seq[v as int] == v);
        }
        assert forall|i: int, j: int| 0 <= i < j < n implies seq[i] != seq[j] by {}
    } else {
        let ends = connection_ends(conns);
        assert forall|j: int| 0 <= j < ends.len() implies rank(#[trigger] ends[j].0) < rank(ends[j].1) by {
            assert(ends[j].0 == conns[j].0 && ends[j].1 == conns[j].1);
        }
        lemma_acyclic_order_is_permutation(n, ends, rank);
    }
    lemma_first_occurrences(seq);
}

/// Law: a script whose connections all point forward (from a lower step
/// index to a higher one) and that has no explicit sequence builds a
/// journey that is a permutation of its steps, and its build sequence is
/// that same journey.
pub proof fn lemma_forward_script_is_permutation(b: ScriptBuilder)
    requires
        b.wf(),
        b.sequence_view() is None,
        forall|j: int|
            0 <= j < b.connections_view().len() ==> (#[trigger] b.connections_view()[j]).0
                < b.connections_view()[j].1,
    ensures
        ({
            let seq = script_sequence(b.steps_view().len(), b.connections_view(), b.sequence_view());
            &&& seq.len() == b.steps_view().len()
            &&& seq.no_duplicates()
            &&& forall|v: usize| v < b.steps_view().len() ==> #[trigger] seq.contains(v)
            &&& first_occurrences(seq) == seq
        }),
{
    let n = b.steps_view().len();
    let conns = b.connections_view();
    let seq = script_sequence(n, conns, b.sequence_view());
    if conns.len() == 0 {
        assert(seq == chain(n));
        assert forall|v: usize| v < n implies #[trigger] seq.contains(v) by {
            assert(seq[v as int] == v);
        }
    } else {
        let ends = connection_ends(conns);
        let rank = |v: usize| v as nat;
        assert forall|j: int| 0 <= j < ends.len() implies rank(#[trigger] ends[j].0) < rank(
            ends[j].1,
        ) by {
            assert(ends[j].0 == conns[j].0 && ends[j].1 == conns[j].1);
        }
        lemma_acyclic_order_is_permutation(n, ends, rank);
    }
    lemma_first_occurrences(seq);
}

/// Law: a script of steps alone, with no connection and no explicit
/// sequence, builds the linear chain: its journey and its build sequence are
/// `0, 1, ..., n - 1`, and its transitions are `i -> i + 1` without routes,
/// exactly the model one would write by hand.
pub proof fn lemma_plain_script_is_chain(n: nat, t: Seq<Transition>)
    requires
        n <= usize::MAX,
    ensures
        script_sequence(n, Seq::empty(), None) == chain(n),
        first_occurrences(chain(n)) == chain(n),
        script_transition_ok(n, Seq::empty(), t) <==> (t.len() == (if n == 0 {
            0
        } else {
            n - 1
        }) && forall|i: int| 0 <= i < t.len() ==> (#[trigger] t[i]).from == i && t[i].to == i + 1 && t[i].route is None),
{
    assert forall|i: int, j: int| 0 <= i < j < n implies chain(n)[i] != chain(n)[j] by {
        assert(chain(n)[i] == i && chain(n)[j] == j);
    }
    assert(chain(n).no_duplicates());
    lemma_first_occurrences(chain(n));
}

impl<'a> ConnectionBuilder<'a> {
    /// Configures a deterministic grid route for this transition.
    pub fn route(self, directions: Vec<Direction>) -> (r: Self)
        requires
            self.builder.wf(),
            self.transition_index < self.builder.connections_view().len(),
        ensures
            r.builder.wf(),
            r.transition_index == self.transition_index,
            r.builder.steps_view() == old(self.builder).steps_view(),
            r.builder.connections_view() == old(self.builder).connections_view().update(
                self.transition_index as int,
                (
                    old(self.builder).connections_view()[self.transition_index as int].0,
                    old(self.builder).connections_view()[self.transition_index as int].1,
                    Some(directions),
                ),
            ),
            r.builder.sequence_view() == old(self.builder).sequence_view(),
            *final(r.builder) == *final(self.builder),
    {
        let idx = self.transition_index;
        let from = self.builder.explicit_connections[idx].0;
        let to = self.builder.explicit_connections[idx].1;
        self.builder.explicit_connections.set(idx, (from, to, Some(directions)));
        proof {
            let ends = connection_ends(self.builder.explicit_connections@);
            let old_ends = connection_ends(old(self.builder).explicit_connections@);
            assert forall|j: int| 0 <= j < ends.len() implies ends[j].0 < self.builder.steps.len()
                && ends[j].1 < self.builder.steps.len() by {
                assert(ends[j].0 == old_ends[j].0 && ends[j].1 == old_ends[j].1);
            }
        }
        self
    }
}

} // verus!
