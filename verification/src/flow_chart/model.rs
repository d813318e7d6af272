//! The discrete data of a flow chart: edges, the flow path, label
//! tattvas, and which nodes currently show their active-only content.
use std::collections::HashSet;
use vstd::prelude::*;

use crate::animation::TattvaId;
use crate::flow_chart::edge::FlowEdge;
use crate::flow_chart::types::{FlowChartDirection, FlowNodeContentVisibility};

verus! {

broadcast use vstd::std_specs::hash::group_hash_axioms;

/// The consecutive hops `(path[i], path[i + 1])` of a path.
pub open spec fn path_hops(path: Seq<usize>) -> Seq<(usize, usize)> {
    Seq::new(
        if path.len() == 0 {
            0
        } else {
            (path.len() - 1) as nat
        },
        |i: int| (path[i], path[i + 1]),
    )
}

/// The unique elements of `s` in first-appearance order.
pub open spec fn distinct_in_order(s: Seq<(usize, usize)>) -> Seq<(usize, usize)>
    decreases s.len(),
{
    if s.len() == 0 {
        Seq::empty()
    } else {
        let prev = distinct_in_order(s.drop_last());
        if s.drop_last().contains(s.last()) {
            prev
        } else {
            prev.push(s.last())
        }
    }
}

/// Source and target of each edge.
pub open spec fn edge_ends(edges: Seq<FlowEdge>) -> Seq<(usize, usize)> {
    edges.map_values(|e: FlowEdge| (e.from, e.to))
}

/// Core data model for the flowchart.
pub struct FlowChartModel {
    /// Number of nodes; the nodes themselves, with their sizes and colours,
    /// are kept by the renderer.
    pub node_count: usize,
    pub edges: Vec<FlowEdge>,
    pub flow_path: Vec<usize>,
    pub direction: FlowChartDirection,
    /// Label tattva IDs for each node (for the write-text animation).
    pub label_ids: Vec<Option<TattvaId>>,
    /// Active content nodes (for conditional rendering).
    pub active_content_nodes: HashSet<usize>,
}

impl FlowChartModel {
    pub fn new(node_count: usize) -> (m: Self)
        ensures
            m.node_count == node_count,
            m.edges@ == Seq::<FlowEdge>::empty(),
            m.flow_path@ == Seq::<usize>::empty(),
            m.direction == FlowChartDirection::Horizontal,
            m.label_ids@ == Seq::new(node_count as nat, |i: int| None::<TattvaId>),
            m.active_content_nodes@ == Set::<usize>::empty(),
    {
        let mut label_ids: Vec<Option<TattvaId>> = Vec::new();
        let mut i: usize = 0;
        while i < node_count
            invariant
                i <= node_count,
                label_ids@ == Seq::new(i as nat, |k: int| None::<TattvaId>),
            decreases node_count - i,
        {
            label_ids.push(None);
            proof {
                assert(label_ids@ =~= Seq::new((i + 1) as nat, |k: int| None::<TattvaId>));
            }
            i += 1;
        }
        FlowChartModel {
            node_count,
            edges: Vec::new(),
            flow_path: Vec::new(),
            direction: FlowChartDirection::Horizontal,
            label_ids,
            active_content_nodes: HashSet::new(),
        }
    }

    /// Sets the label tattva of a node; an index past the label slots is
    /// ignored.
    pub fn set_label_id(&mut self, node_index: usize, label_id: TattvaId)
        ensures
            final(self).node_count == old(self).node_count,
            final(self).edges == old(self).edges,
            final(self).flow_path == old(self).flow_path,
            final(self).direction == old(self).direction,
            final(self).active_content_nodes == old(self).active_content_nodes,
            final(self).label_ids@ == if node_index < old(self).label_ids.len() {
                old(self).label_ids@.update(node_index as int, Some(label_id))
            } else {
                old(self).label_ids@
            },
    {
        if node_index < self.label_ids.len() {
            self.label_ids.set(node_index, Some(label_id));
        }
    }

    /// Marks a node's active-only content as shown.
    pub fn activate_content_node(&mut self, node_index: usize)
        ensures
            final(self).active_content_nodes@ == old(self).active_content_nodes@.insert(node_index),
            final(self).node_count == old(self).node_count,
            final(self).edges == old(self).edges,
            final(self).flow_path == old(self).flow_path,
            final(self).label_ids == old(self).label_ids,
            final(self).direction == old(self).direction,
    {
        self.active_content_nodes.insert(node_index);
    }

    /// Marks a node's active-only content as hidden.
    pub fn deactivate_content_node(&mut self, node_index: usize)
        ensures
            final(self).active_content_nodes@ == old(self).active_content_nodes@.remove(node_index),
            final(self).node_count == old(self).node_count,
            final(self).edges == old(self).edges,
            final(self).flow_path == old(self).flow_path,
            final(self).label_ids == old(self).label_ids,
            final(self).direction == old(self).direction,
    {
        self.active_content_nodes.remove(&node_index);
        proof {
            assert(final(self).active_content_nodes@ =~= old(self).active_content_nodes@.remove(
                node_index,
            ));
        }
    }

    /// Replaces the set of nodes whose active-only content is shown.
    pub fn with_active_content_nodes(self, nodes: Vec<usize>) -> (m: Self)
        ensures
            m.active_content_nodes@ == nodes@.to_set(),
            m.node_count == self.node_count,
            m.edges == self.edges,
            m.flow_path == self.flow_path,
            m.label_ids == self.label_ids,
            m.direction == self.direction,
    {
        let mut set: HashSet<usize> = HashSet::new();
        let mut i: usize = 0;
        while i < nodes.len()
            invariant
                i <= nodes.len(),
                set@ == nodes@.take(i as int).to_set(),
            decreases nodes.len() - i,
        {
            let x = nodes[i];
            set.insert(x);
            proof {
                let a = nodes@.take(i as int);
                let b = nodes@.take(i + 1);
                assert(b =~= a.push(x));
                assert(b.to_set() =~= a.to_set().insert(x)) by {
                    assert forall|y: usize| b.to_set().contains(y) implies a.to_set().insert(
                        x,
                    ).contains(y) by {
                        let k = choose|k: int| 0 <= k < b.len() && b[k] == y;
                        if k < i {
                            assert(a[k] == y);
                        }
                    }
                    assert forall|y: usize| a.to_set().insert(x).contains(y) implies b.to_set().contains(
                        y,
                    ) by {
                        if y == x {
                            assert(b[i as int] == x);
                        } else {
                            let k = choose|k: int| 0 <= k < a.len() && a[k] == y;
                            assert(b[k] == y);
                        }
                    }
                }
            }
            i += 1;
        }
        proof {
            assert(nodes@.take(nodes.len() as int) =~= nodes@);
        }
        FlowChartModel {
            node_count: self.node_count,
            edges: self.edges,
            flow_path: self.flow_path,
            direction: self.direction,
            label_ids: self.label_ids,
            active_content_nodes: set,
        }
    }

    /// Whether the embedded content of a node is drawn: always, or only
    /// while the node is active.
    pub fn node_content_visible(&self, node_index: usize, visibility: FlowNodeContentVisibility) -> (r: bool)
        ensures
            r == match visibility {
                FlowNodeContentVisibility::Always => true,
                FlowNodeContentVisibility::ActiveOnly => self.active_content_nodes@.contains(
                    node_index,
                ),
            },
    {
        match visibility {
            FlowNodeContentVisibility::Always => true,
            FlowNodeContentVisibility::ActiveOnly => self.active_content_nodes.contains(&node_index),
        }
    }

    /// Whether the chart draws the label text of a node itself: it does
    /// unless a label tattva was attached to the node.
    pub fn renders_label_text(&self, node_index: usize) -> (r: bool)
        ensures
            r == !(node_index < self.label_ids.len() && self.label_ids@[node_index as int] is Some),
    {
        if node_index < self.label_ids.len() {
            self.label_ids[node_index].is_none()
        } else {
            true
        }
    }

    /// The index of the first edge from `from` to `to`.
    pub fn edge_definition(&self, from: usize, to: usize) -> (r: Option<usize>)
        ensures
            match r {
                Some(k) => k < self.edges.len() && self.edges@[k as int].from == from
                    && self.edges@[k as int].to == to && forall|i: int|
                    0 <= i < k ==> !(#[trigger] self.edges@[i].from == from && self.edges@[i].to
                        == to),
                None => forall|i: int|
                    0 <= i < self.edges.len() ==> !(#[trigger] self.edges@[i].from == from
                        && self.edges@[i].to == to),
            },
    {
        let mut k: usize = 0;
        while k < self.edges.len()
            invariant
                k <= self.edges.len(),
                forall|i: int|
                    0 <= i < k ==> !(#[trigger] self.edges@[i].from == from && self.edges@[i].to
                        == to),
            decreases self.edges.len() - k,
        {
            if self.edges[k].from == from && self.edges[k].to == to {
                return Some(k);
            }
            k += 1;
        }
        None
    }

    /// The pairs of nodes that the chart connects: the explicit edges when
    /// there are any, else each distinct hop of the flow path once, in the
    /// order the path first takes it.
    pub fn connection_pairs(&self) -> (r: Vec<(usize, usize)>)
        ensures
            r@ == if self.edges.len() > 0 {
                edge_ends(self.edges@)
            } else {
                distinct_in_order(path_hops(self.flow_path@))
            },
    {
        let mut pairs: Vec<(usize, usize)> = Vec::new();
        if self.edges.len() > 0 {
            let mut k: usize = 0;
            while k < self.edges.len()
                invariant
                    k <= self.edges.len(),
                    pairs@ == edge_ends(self.edges@.take(k as int)),
                decreases self.edges.len() - k,
            {
                pairs.push((self.edges[k].from, self.edges[k].to));
                proof {
                    assert(pairs@ =~= edge_ends(self.edges@.take(k + 1)));
                }
                k += 1;
            }
            proof {
                assert(self.edges@.take(self.edges.len() as int) =~= self.edges@);
            }
            return pairs;
        }
        let path = &self.flow_path;
        let ghost hops = path_hops(path@);
        if path.len() < 2 {
            proof {
                assert(hops =~= Seq::<(usize, usize)>::empty());
            }
            return pairs;
        }
        let mut i: usize = 0;
        while i + 1 < path.len()
            invariant
                path.len() >= 2,
                hops == path_hops(path@),
                i + 1 <= path.len(),
                pairs@ == distinct_in_order(hops.take(i as int)),
            decreases path.len() - i,
        {
            let edge = (path[i], path[i + 1]);
            let ghost a = hops.take(i as int);
            let mut seen = false;
            let mut k: usize = 0;
            while k < pairs.len()
                invariant
                    k <= pairs.len(),
                    seen == exists|q: int| 0 <= q < k && pairs@[q] == edge,
                decreases pairs.len() - k,
            {
                if pairs[k].0 == edge.0 && pairs[k].1 == edge.1 {
                    seen = true;
                }
                k += 1;
            }
            proof {
                assert(hops.take(i + 1).drop_last() =~= a);
                assert(hops.take(i + 1).last() == edge);
                lemma_distinct_in_order_contains(a, edge);
                if seen {
                    let q = choose|q: int| 0 <= q < pairs.len() && pairs@[q] == edge;
                    assert(pairs@.contains(edge));
                }
            }
            if !seen {
                pairs.push(edge);
            }
            i += 1;
        }
        proof {
            assert(hops.take(i as int) =~= hops);
        }
        pairs
    }
}

/// Deduplication in order keeps exactly the elements of `s`.
pub proof fn lemma_distinct_in_order_contains(s: Seq<(usize, usize)>, x: (usize, usize))
    ensures
        distinct_in_order(s).contains(x) <==> s.contains(x),
    decreases s.len(),
{
    if s.len() > 0 {
        let p = s.drop_last();
        lemma_distinct_in_order_contains(p, x);
        let d = distinct_in_order(p);
        if s.contains(x) {
            let i = choose|i: int| 0 <= i < s.len() && s[i] == x;
            if i < p.len() {
                assert(p[i] == x);
            }
        }
        if p.contains(x) {
            let i = choose|i: int| 0 <= i < p.len() && p[i] == x;
            assert(s[i] == x);
        }
        if !p.contains(s.last()) {
            if d.push(s.last()).contains(x) {
                let i = choose|i: int| 0 <= i < d.push(s.last()).len() && d.push(s.last())[i] == x;
                if i < d.len() {
                    assert(d[i] == x);
                }
            }
            if d.contains(x) {
                let i = choose|i: int| 0 <= i < d.len() && d[i] == x;
                assert(d.push(s.last())[i] == x);
            }
            if x == s.last() {
                assert(d.push(s.last())[d.len() as int] == x);
                assert(s[s.len() - 1] == x);
            }
        }
    }
}

/// Law: each connection that the flow path implies appears once.
pub proof fn lemma_distinct_in_order_no_duplicates(s: Seq<(usize, usize)>)
    ensures
        distinct_in_order(s).no_duplicates(),
    decreases s.len(),
{
    if s.len() > 0 {
        let p = s.drop_last();
        lemma_distinct_in_order_no_duplicates(p);
        lemma_distinct_in_order_contains(p, s.last());
        let d = distinct_in_order(p);
        if !p.contains(s.last()) {
            let e = d.push(s.last());
            assert forall|i: int, j: int| 0 <= i < e.len() && 0 <= j < e.len() && i != j implies e[i]
                != e[j] by {
                if i < d.len() && j < d.len() {
                    assert(e[i] == d[i] && e[j] == d[j]);
                } else if i < d.len() {
                    assert(e[i] == d[i]);
                    assert(d.contains(e[i]));
                } else if j < d.len() {
                    assert(e[j] == d[j]);
                    assert(d.contains(e[j]));
                }
            }
        }
    }
}

} // verus!
