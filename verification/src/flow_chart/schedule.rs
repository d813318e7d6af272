//! The reveal schedule of a flow chart: when, as the reveal progress runs
//! from 0 to 1, each node and each edge appears.
//!
//! Nodes and edges are laid on a line of virtual reveal steps: node `i` at
//! step `i` and edge `j` at step `n + j`, or, when edges are revealed
//! progressively, interleaved as node 0, edge 0, node 1, edge 1, ... . With
//! no explicit reveal point each step is its index over the number of
//! components (or over the last interleaved step, when that lies beyond),
//! so every threshold lies in `[0, 1]`.
//! Otherwise the explicit points, together with 0 at the first step and 1
//! at the last when no explicit point sits there, are anchors, and every
//! other step is interpolated linearly between the nearest anchors on
//! either side. The schedule here says where each value comes from; the
//! renderer evaluates it on its floating-point reveal points.
use vstd::prelude::*;

verus! {

/// A value that anchors the interpolation.
#[derive(Clone, Copy, Debug, PartialEq, Eq, Structural)]
pub enum ThresholdAnchor {
    /// 0.0, at the first virtual step.
    Start,
    /// 1.0, at the last virtual step.
    End,
    /// The explicit reveal point of a component: node `c` when `c < n`,
    /// else edge `c - n`.
    Fixed(usize),
}

/// Where the reveal threshold of one component comes from.
#[derive(Clone, Copy, Debug, PartialEq, Eq, Structural)]
pub enum ThresholdSource {
    /// `numerator / denominator`.
    Uniform { numerator: usize, denominator: usize },
    /// The value of an anchor.
    Anchor(ThresholdAnchor),
    /// `from + (to - from) / count * step`: the `step`-th of `count` equal
    /// steps from one anchor to the next.
    Between { from: ThresholdAnchor, to: ThresholdAnchor, step: usize, count: usize },
}

/// The virtual step of component `raw` (node `raw` when `raw < n`, else
/// edge `raw - n`).
pub open spec fn virtual_index(raw: nat, n: nat, progressive: bool) -> nat {
    if !progressive {
        raw
    } else if raw < n {
        2 * raw
    } else {
        (2 * (raw - n) + 1) as nat
    }
}

/// The component at virtual step `v`.
pub open spec fn component_at(v: nat, n: nat, progressive: bool) -> nat {
    if !progressive {
        v
    } else if v % 2 == 0 {
        v / 2
    } else {
        (n + (v - 1) / 2) as nat
    }
}

/// Whether component `raw` has an explicit reveal point.
pub open spec fn is_fixed(raw: nat, node_fixed: Seq<bool>, edge_fixed: Seq<bool>) -> bool {
    if raw < node_fixed.len() {
        node_fixed[raw as int]
    } else if raw < node_fixed.len() + edge_fixed.len() {
        edge_fixed[raw - node_fixed.len()]
    } else {
        false
    }
}

/// Some component has an explicit reveal point.
pub open spec fn any_fixed(node_fixed: Seq<bool>, edge_fixed: Seq<bool>) -> bool {
    node_fixed.contains(true) || edge_fixed.contains(true)
}

/// Interleaving `n` nodes with `m` edges leaves no virtual step past the
/// last: there is at most one more node than edges and no more edges than
/// nodes.
pub open spec fn interleaving_fits(n: nat, m: nat) -> bool {
    n <= m + 1 && m <= n
}

/// The anchor at virtual step `v`, if any.
pub open spec fn anchor_at(v: nat, node_fixed: Seq<bool>, edge_fixed: Seq<bool>, progressive: bool) -> Option<ThresholdAnchor> {
    let n = node_fixed.len();
    let total = n + edge_fixed.len();
    let raw = component_at(v, n, progressive);
    if is_fixed(raw, node_fixed, edge_fixed) {
        Some(ThresholdAnchor::Fixed(raw as usize))
    } else if v == 0 {
        Some(ThresholdAnchor::Start)
    } else if v == total - 1 {
        Some(ThresholdAnchor::End)
    } else {
        None
    }
}

/// The nearest anchor strictly before `v` (0 for `v == 0`).
pub open spec fn prev_anchor(v: nat, node_fixed: Seq<bool>, edge_fixed: Seq<bool>, progressive: bool) -> nat
    decreases v,
{
    if v == 0 {
        0
    } else if anchor_at((v - 1) as nat, node_fixed, edge_fixed, progressive) is Some {
        (v - 1) as nat
    } else {
        prev_anchor((v - 1) as nat, node_fixed, edge_fixed, progressive)
    }
}

/// The nearest anchor strictly after `v` (the last step when there is none).
pub open spec fn next_anchor(v: nat, node_fixed: Seq<bool>, edge_fixed: Seq<bool>, progressive: bool) -> nat
    decreases node_fixed.len() + edge_fixed.len() - v,
{
    let total = node_fixed.len() + edge_fixed.len();
    if v + 1 >= total {
        (total - 1) as nat
    } else if anchor_at(v + 1, node_fixed, edge_fixed, progressive) is Some {
        v + 1
    } else {
        next_anchor(v + 1, node_fixed, edge_fixed, progressive)
    }
}

/// The source of the threshold at virtual step `v` when some component has
/// an explicit reveal point.
pub open spec fn interpolated_source(v: nat, node_fixed: Seq<bool>, edge_fixed: Seq<bool>, progressive: bool) -> ThresholdSource {
    match anchor_at(v, node_fixed, edge_fixed, progressive) {
        Some(a) => ThresholdSource::Anchor(a),
        None => {
            let p = prev_anchor(v, node_fixed, edge_fixed, progressive);
            let q = next_anchor(v, node_fixed, edge_fixed, progressive);
            ThresholdSource::Between {
                from: anchor_at(p, node_fixed, edge_fixed, progressive)->0,
                to: anchor_at(q, node_fixed, edge_fixed, progressive)->0,
                step: (v - p) as usize,
                count: (q - p) as usize,
            }
        },
    }
}

/// The source of the threshold of component `raw`.
pub open spec fn threshold_source(raw: nat, node_fixed: Seq<bool>, edge_fixed: Seq<bool>, progressive: bool) -> ThresholdSource {
    let n = node_fixed.len();
    let total = n + edge_fixed.len();
    let v = virtual_index(raw, n, progressive);
    if any_fixed(node_fixed, edge_fixed) {
        interpolated_source(v, node_fixed, edge_fixed, progressive)
    } else {
        ThresholdSource::Uniform {
            numerator: v as usize,
            denominator: virtual_steps(n, edge_fixed.len(), progressive) as usize,
        }
    }
}

/// The last virtual step that a node or an edge occupies when they are
/// interleaved: the last node at step `2n - 2`, the last edge at step
/// `2m - 1`.
pub open spec fn last_interleaved_step(n: nat, m: nat) -> nat {
    let last_node: nat = if n > 0 {
        (2 * n - 2) as nat
    } else {
        0
    };
    let last_edge: nat = if m > 0 {
        (2 * m - 1) as nat
    } else {
        0
    };
    if last_node > last_edge {
        last_node
    } else {
        last_edge
    }
}

/// The denominator of the even spread: the number of nodes and edges,
/// unless interleaving puts a component on a later virtual step, in which
/// case that step, so that no threshold passes 1.
pub open spec fn virtual_steps(n: nat, m: nat, progressive: bool) -> nat {
    if progressive && last_interleaved_step(n, m) > n + m {
        last_interleaved_step(n, m)
    } else {
        n + m
    }
}

/// Law: with no explicit reveal point, every node and edge gets the
/// fraction of its own virtual step over one common denominator, so
/// components later in reveal order get larger thresholds; no fraction
/// passes 1; the first node gets 0; and the denominator is the number of
/// nodes and edges whenever no interleaved step lies beyond it.
pub proof fn lemma_uniform_thresholds_within_one(
    raw: nat,
    node_fixed: Seq<bool>,
    edge_fixed: Seq<bool>,
    progressive: bool,
)
    requires
        raw < node_fixed.len() + edge_fixed.len(),
        !any_fixed(node_fixed, edge_fixed),
        2 * (node_fixed.len() + edge_fixed.len()) <= usize::MAX,
    ensures
        threshold_source(raw, node_fixed, edge_fixed, progressive) == (ThresholdSource::Uniform {
            numerator: virtual_index(raw, node_fixed.len(), progressive) as usize,
            denominator: virtual_steps(node_fixed.len(), edge_fixed.len(), progressive) as usize,
        }),
        virtual_index(raw, node_fixed.len(), progressive) <= virtual_steps(
            node_fixed.len(),
            edge_fixed.len(),
            progressive,
        ),
        virtual_steps(node_fixed.len(), edge_fixed.len(), progressive) >= 1,
        raw == 0 && node_fixed.len() > 0 ==> virtual_index(raw, node_fixed.len(), progressive) == 0,
        !progressive || last_interleaved_step(node_fixed.len(), edge_fixed.len()) <= node_fixed.len()
            + edge_fixed.len() ==> virtual_steps(node_fixed.len(), edge_fixed.len(), progressive)
            == node_fixed.len() + edge_fixed.len(),
{
}

/// Computes the reveal schedule of a flow chart.
pub struct AnimationEngine;

impl AnimationEngine {
    /// The anchor at virtual step `v`.
    fn anchor_for_step(
        v: usize,
        node_fixed: &Vec<bool>,
        edge_fixed: &Vec<bool>,
        progressive_edges: bool,
    ) -> (r: Option<ThresholdAnchor>)
        requires
            2 * (node_fixed.len() + edge_fixed.len()) <= usize::MAX,
            v < node_fixed.len() + edge_fixed.len(),
        ensures
            r == anchor_at(v as nat, node_fixed@, edge_fixed@, progressive_edges),
    {
        let n = node_fixed.len();
        let total = n + edge_fixed.len();
        let raw = if !progressive_edges {
            v
        } else if v % 2 == 0 {
            v / 2
        } else {
            n + (v - 1) / 2
        };
        let fixed = if raw < n {
            node_fixed[raw]
        } else if raw < total {
            edge_fixed[raw - n]
        } else {
            false
        };
        if fixed {
            Some(ThresholdAnchor::Fixed(raw))
        } else if v == 0 {
            Some(ThresholdAnchor::Start)
        } else if v == total - 1 {
            Some(ThresholdAnchor::End)
        } else {
            None
        }
    }

    /// Whether an edge is drawn during the reveal: always, unless edges are
    /// revealed progressively, in which case only once both of its ends
    /// have been revealed.
    pub fn should_draw_edge(progressive_edges: bool, from_revealed: bool, to_revealed: bool) -> (r: bool)
        ensures
            r == (!progressive_edges || (from_revealed && to_revealed)),
    {
        !progressive_edges || (from_revealed && to_revealed)
    }

    /// The sources of the reveal thresholds of the nodes and of the edges.
    /// `node_fixed[i]` / `edge_fixed[j]` say whether node `i` / edge `j`
    /// has an explicit reveal point.
    pub fn compute_reveal_thresholds(
        node_fixed: &Vec<bool>,
        edge_fixed: &Vec<bool>,
        progressive_edges: bool,
    ) -> (r: (Vec<ThresholdSource>, Vec<ThresholdSource>))
        requires
            2 * (node_fixed.len() + edge_fixed.len()) <= usize::MAX,
            progressive_edges && any_fixed(node_fixed@, edge_fixed@) ==> interleaving_fits(
                node_fixed.len() as nat,
                edge_fixed.len() as nat,
            ),
        ensures
            r.0.len() == node_fixed.len(),
            r.1.len() == edge_fixed.len(),
            forall|i: int|
                0 <= i < node_fixed.len() ==> #[trigger] r.0@[i] == threshold_source(
                    i as nat,
                    node_fixed@,
                    edge_fixed@,
                    progressive_edges,
                ),
            forall|j: int|
                0 <= j < edge_fixed.len() ==> #[trigger] r.1@[j] == threshold_source(
                    (node_fixed.len() + j) as nat,
                    node_fixed@,
                    edge_fixed@,
                    progressive_edges,
                ),
    {
        let ghost nf = node_fixed@;
        let ghost ef = edge_fixed@;
        let n = node_fixed.len();
        let m = edge_fixed.len();
        let total = n + m;
        let mut node_sources: Vec<ThresholdSource> = Vec::new();
        let mut edge_sources: Vec<ThresholdSource> = Vec::new();
        if total == 0 {
            return (node_sources, edge_sources);
        }
        let mut fixed_found = false;
        let mut i: usize = 0;
        while i < n
            invariant
                i <= n,
                n == node_fixed.len(),
                fixed_found == exists|k: int| 0 <= k < i && node_fixed@[k],
            decreases n - i,
        {
            if node_fixed[i] {
                fixed_found = true;
            }
            i += 1;
        }
        let mut j: usize = 0;
        while j < m
            invariant
                j <= m,
                n == node_fixed.len(),
                m == edge_fixed.len(),
                fixed_found == ((exists|k: int| 0 <= k < n && node_fixed@[k]) || exists|k: int|
                    0 <= k < j && edge_fixed@[k]),
            decreases m - j,
        {
            if edge_fixed[j] {
                fixed_found = true;
            }
            j += 1;
        }
        assert(fixed_found == any_fixed(nf, ef)) by {
            if exists|k: int| 0 <= k < n && nf[k] {
                let k = choose|k: int| 0 <= k < n && nf[k];
                assert(nf.contains(true));
            }
            if exists|k: int| 0 <= k < m && ef[k] {
                let k = choose|k: int| 0 <= k < m && ef[k];
                assert(ef.contains(true));
            }
        }
        if !fixed_found {
            let last_node: usize = if n > 0 {
                2 * n - 2
            } else {
                0
            };
            let last_edge: usize = if m > 0 {
                2 * m - 1
            } else {
                0
            };
            let last = if last_node > last_edge {
                last_node
            } else {
                last_edge
            };
            let steps: usize = if progressive_edges && last > total {
                last
            } else {
                total
            };
            let mut i: usize = 0;
            while i < n
                invariant
                    i <= n,
                    n == node_fixed.len(),
                    total == n + edge_fixed.len(),
                    2 * total <= usize::MAX,
                    steps == virtual_steps(n as nat, edge_fixed.len() as nat, progressive_edges),
                    !any_fixed(nf, ef),
                    nf == node_fixed@,
                    ef == edge_fixed@,
                    node_sources.len() == i,
                    forall|k: int|
                        0 <= k < i ==> #[trigger] node_sources@[k] == threshold_source(
                            k as nat,
                            nf,
                            ef,
                            progressive_edges,
                        ),
                decreases n - i,
            {
                let numerator = if progressive_edges {
                    i * 2
                } else {
                    i
                };
                node_sources.push(ThresholdSource::Uniform { numerator, denominator: steps });
                i += 1;
            }
            let mut j: usize = 0;
            while j < m
                invariant
                    j <= m,
                    n == node_fixed.len(),
                    m == edge_fixed.len(),
                    total == n + m,
                    2 * total <= usize::MAX,
                    steps == virtual_steps(n as nat, m as nat, progressive_edges),
                    !any_fixed(nf, ef),
                    nf == node_fixed@,
                    ef == edge_fixed@,
                    edge_sources.len() == j,
                    forall|k: int|
                        0 <= k < j ==> #[trigger] edge_sources@[k] == threshold_source(
                            (n + k) as nat,
                            nf,
                            ef,
                            progressive_edges,
                        ),
                decreases m - j,
            {
                let numerator = if progressive_edges {
                    j * 2 + 1
                } else {
                    j + n
                };
                edge_sources.push(ThresholdSource::Uniform { numerator, denominator: steps });
                j += 1;
            }
            return (node_sources, edge_sources);
        }
        // Anchors of every virtual step.

        let mut anchors: Vec<Option<ThresholdAnchor>> = Vec::new();
        let mut v: usize = 0;
        while v < total
            invariant
                v <= total,
                total == node_fixed.len() + edge_fixed.len(),
                2 * total <= usize::MAX,
                nf == node_fixed@,
                ef == edge_fixed@,
                anchors.len() == v,
                forall|k: int|
                    0 <= k < v ==> #[trigger] anchors@[k] == anchor_at(
                        k as nat,
                        nf,
                        ef,
                        progressive_edges,
                    ),
            decreases total - v,
        {
            let a = Self::anchor_for_step(v, node_fixed, edge_fixed, progressive_edges);
            anchors.push(a);
            v += 1;
        }
        // Nearest anchor after each virtual step, filled from the right.
        let mut nexts: Vec<usize> = Vec::new();
        let mut v: usize = 0;
        while v < total
            invariant
                v <= total,
                nexts.len() == v,
            decreases total - v,
        {
            nexts.push(0);
            v += 1;
        }
        let mut nxt: usize = total - 1;
        let mut k: usize = total;
        while k > 0
            invariant
                0 <= k <= total,
                total == nf.len() + ef.len(),
                total >= 1,
                anchors.len() == total,
                nexts.len() == total,
                forall|u: int|
                    0 <= u < total ==> #[trigger] anchors@[u] == anchor_at(
                        u as nat,
                        nf,
                        ef,
                        progressive_edges,
                    ),
                k >= 1 ==> nxt == next_anchor((k - 1) as nat, nf, ef, progressive_edges),
                forall|u: int|
                    k <= u < total ==> #[trigger] nexts@[u] == next_anchor(
                        u as nat,
                        nf,
                        ef,
                        progressive_edges,
                    ),
            decreases k,
        {
            let v = k - 1;
            nexts.set(v, nxt);
            if anchors[v].is_some() {
                nxt = v;
            }
            k = v;
        }
        // Sources of every virtual step, filled from the left.
        let mut sources: Vec<ThresholdSource> = Vec::new();
        let mut prev: usize = 0;
        let mut v: usize = 0;
        while v < total
            invariant
                v <= total,
                total == nf.len() + ef.len(),
                any_fixed(nf, ef),
                anchors.len() == total,
                nexts.len() == total,
                forall|u: int|
                    0 <= u < total ==> #[trigger] anchors@[u] == anchor_at(
                        u as nat,
                        nf,
                        ef,
                        progressive_edges,
                    ),
                forall|u: int|
                    0 <= u < total ==> #[trigger] nexts@[u] == next_anchor(
                        u as nat,
                        nf,
                        ef,
                        progressive_edges,
                    ),
                prev == prev_anchor(v as nat, nf, ef, progressive_edges),
                sources.len() == v,
                forall|u: int|
                    0 <= u < v ==> #[trigger] sources@[u] == interpolated_source(
                        u as nat,
                        nf,
                        ef,
                        progressive_edges,
                    ),
            decreases total - v,
        {
            proof {
                lemma_anchor_ends(nf, ef, progressive_edges);
                lemma_prev_anchor(v as nat, nf, ef, progressive_edges);
                lemma_next_anchor(v as nat, nf, ef, progressive_edges);
            }
            let src = match anchors[v] {
                Some(a) => ThresholdSource::Anchor(a),
                None => {
                    let q = nexts[v];
                    let from = match anchors[prev] {
                        Some(a) => a,
                        None => ThresholdAnchor::Start,
                    };
                    let to = match anchors[q] {
                        Some(a) => a,
                        None => ThresholdAnchor::End,
                    };
                    ThresholdSource::Between { from, to, step: v - prev, count: q - prev }
                },
            };
            sources.push(src);
            if anchors[v].is_some() {
                prev = v;
            }
            v += 1;
        }
        // Map each component to its virtual step.
        let mut i: usize = 0;
        while i < n
            invariant
                i <= n,
                n == nf.len(),
                total == nf.len() + ef.len(),
                2 * total <= usize::MAX,
                any_fixed(nf, ef),
                progressive_edges ==> interleaving_fits(nf.len(), ef.len()),
                sources.len() == total,
                forall|u: int|
                    0 <= u < total ==> #[trigger] sources@[u] == interpolated_source(
                        u as nat,
                        nf,
                        ef,
                        progressive_edges,
                    ),
                node_sources.len() == i,
                forall|k: int|
                    0 <= k < i ==> #[trigger] node_sources@[k] == threshold_source(
                        k as nat,
                        nf,
                        ef,
                        progressive_edges,
                    ),
            decreases n - i,
        {
            let v = if progressive_edges {
                i * 2
            } else {
                i
            };
            node_sources.push(sources[v]);
            i += 1;
        }
        let mut j: usize = 0;
        while j < m
            invariant
                j <= m,
                n == nf.len(),
                m == ef.len(),
                total == n + m,
                2 * total <= usize::MAX,
                any_fixed(nf, ef),
                progressive_edges ==> interleaving_fits(nf.len(), ef.len()),
                sources.len() == total,
                forall|u: int|
                    0 <= u < total ==> #[trigger] sources@[u] == interpolated_source(
                        u as nat,
                        nf,
                        ef,
                        progressive_edges,
                    ),
                edge_sources.len() == j,
                forall|k: int|
                    0 <= k < j ==> #[trigger] edge_sources@[k] == threshold_source(
                        (n + k) as nat,
                        nf,
                        ef,
                        progressive_edges,
                    ),
            decreases m - j,
        {
            let v = if progressive_edges {
                j * 2 + 1
            } else {
                j + n
            };
            edge_sources.push(sources[v]);
            j += 1;
        }
        (node_sources, edge_sources)
    }
}

/// With some explicit point, the first and the last virtual step are
/// anchors.
pub proof fn lemma_anchor_ends(node_fixed: Seq<bool>, edge_fixed: Seq<bool>, progressive: bool)
    requires
        node_fixed.len() + edge_fixed.len() >= 1,
    ensures
        anchor_at(0, node_fixed, edge_fixed, progressive) is Some,
        anchor_at(
            (node_fixed.len() + edge_fixed.len() - 1) as nat,
            node_fixed,
            edge_fixed,
            progressive,
        ) is Some,
{
}

/// The nearest anchor before `v` is an anchor, lies before `v` when `v > 0`,
/// and no anchor lies between it and `v`.
pub proof fn lemma_prev_anchor(v: nat, node_fixed: Seq<bool>, edge_fixed: Seq<bool>, progressive: bool)
    requires
        node_fixed.len() + edge_fixed.len() >= 1,
    ensures
        anchor_at(prev_anchor(v, node_fixed, edge_fixed, progressive), node_fixed, edge_fixed, progressive) is Some,
        v > 0 ==> prev_anchor(v, node_fixed, edge_fixed, progressive) < v,
        v == 0 ==> prev_anchor(v, node_fixed, edge_fixed, progressive) == 0,
        forall|u: nat|
            prev_anchor(v, node_fixed, edge_fixed, progressive) < u < v ==> #[trigger] anchor_at(
                u,
                node_fixed,
                edge_fixed,
                progressive,
            ) is None,
    decreases v,
{
    lemma_anchor_ends(node_fixed, edge_fixed, progressive);
    if v > 0 && anchor_at((v - 1) as nat, node_fixed, edge_fixed, progressive) is None {
        lemma_prev_anchor((v - 1) as nat, node_fixed, edge_fixed, progressive);
    }
}

/// The nearest anchor after `v < total` is an anchor, lies after `v` when
/// `v` is not the last step, and no anchor lies between `v` and it.
pub proof fn lemma_next_anchor(v: nat, node_fixed: Seq<bool>, edge_fixed: Seq<bool>, progressive: bool)
    requires
        v < node_fixed.len() + edge_fixed.len(),
    ensures
        anchor_at(next_anchor(v, node_fixed, edge_fixed, progressive), node_fixed, edge_fixed, progressive) is Some,
        v + 1 < node_fixed.len() + edge_fixed.len() ==> v < next_anchor(
            v,
            node_fixed,
            edge_fixed,
            progressive,
        ),
        next_anchor(v, node_fixed, edge_fixed, progressive) < node_fixed.len() + edge_fixed.len(),
        forall|u: nat|
            v < u < next_anchor(v, node_fixed, edge_fixed, progressive) ==> #[trigger] anchor_at(
                u,
                node_fixed,
                edge_fixed,
                progressive,
            ) is None,
    decreases node_fixed.len() + edge_fixed.len() - v,
{
    lemma_anchor_ends(node_fixed, edge_fixed, progressive);
    let total = node_fixed.len() + edge_fixed.len();
    if v + 1 < total && anchor_at(v + 1, node_fixed, edge_fixed, progressive) is None {
        lemma_next_anchor(v + 1, node_fixed, edge_fixed, progressive);
    }
}

/// Law: a node or an edge with an explicit reveal point is revealed
/// exactly at that point.
pub proof fn lemma_explicit_points_are_kept(
    raw: nat,
    node_fixed: Seq<bool>,
    edge_fixed: Seq<bool>,
    progressive: bool,
)
    requires
        raw < node_fixed.len() + edge_fixed.len(),
        is_fixed(raw, node_fixed, edge_fixed),
        progressive ==> interleaving_fits(node_fixed.len(), edge_fixed.len()),
    ensures
        threshold_source(raw, node_fixed, edge_fixed, progressive) == ThresholdSource::Anchor(
            ThresholdAnchor::Fixed(raw as usize),
        ),
{
    let n = node_fixed.len();
    if raw < n {
        assert(node_fixed[raw as int]);
        assert(node_fixed.contains(true));
    } else {
        assert(edge_fixed[raw - n]);
        assert(edge_fixed.contains(true));
    }
    let v = virtual_index(raw, n, progressive);
    assert(component_at(v, n, progressive) == raw);
}

/// Law: a virtual step that is not an anchor is interpolated strictly
/// inside the window between the anchors around it.
pub proof fn lemma_interpolation_is_inside(
    v: nat,
    node_fixed: Seq<bool>,
    edge_fixed: Seq<bool>,
    progressive: bool,
)
    requires
        v < node_fixed.len() + edge_fixed.len(),
        node_fixed.len() + edge_fixed.len() <= usize::MAX,
        anchor_at(v, node_fixed, edge_fixed, progressive) is None,
    ensures
        interpolated_source(v, node_fixed, edge_fixed, progressive) matches ThresholdSource::Between {
            step,
            count,
            ..
        } && 0 < step < count,
{
    lemma_anchor_ends(node_fixed, edge_fixed, progressive);
    assert(v > 0);
    assert(v + 1 < node_fixed.len() + edge_fixed.len());
    lemma_prev_anchor(v, node_fixed, edge_fixed, progressive);
    lemma_next_anchor(v, node_fixed, edge_fixed, progressive);
}

} // verus!
