//! Topology of a layered neural-network diagram: which nodes and edges are
//! active, and the signal paths that an indication fires through it.
use vstd::prelude::*;

verus! {

/// How an indication fires signals through the network.
#[derive(Clone, Copy, Debug, PartialEq, Eq, Structural)]
pub enum IndicationStyle {
    /// Fires exactly once over the duration of the indication (t: 0.0 -> 1.0)
    Single,
    /// Loops the signal N times over the duration of the indication
    Loop(usize),
}

/// The activation icon drawn beside the hidden and output layers;
/// `Identity` draws none.
#[derive(Clone, Copy, Debug, PartialEq, Eq, Structural)]
pub enum ActivationFunc {
    Identity,
    ReLU,
    Sigmoid,
}

/// Layer sizes of a network and the nodes that have been switched off.
pub struct NetworkTopology {
    /// Number of nodes in each layer.
    pub layers: Vec<usize>,
    /// Switched-off nodes as (layer, node) pairs, each listed once: a set.
    /// (vstd specifies no hashing of pairs, so the set is kept as a list.)
    pub inactive_nodes: Vec<(usize, usize)>,
}

/// Node `node` of layer `layer` exists and is not switched off.
pub open spec fn node_active(layers: Seq<usize>, inactive: Seq<(usize, usize)>, layer: nat, node: nat) -> bool {
    &&& layer < layers.len()
    &&& node < layers[layer as int]
    &&& !inactive.contains((layer as usize, node as usize))
}

/// A path stops at a switched-off node or at the last layer.
pub open spec fn stops_at(layers: Seq<usize>, inactive: Seq<(usize, usize)>, layer: nat, node: nat) -> bool {
    !node_active(layers, inactive, layer, node) || layer + 1 == layers.len()
}

/// The signal paths that extend `prefix` (the choices in the layers before
/// `layer`) through the first `k` nodes of `layer`, in order: each path
/// continues into the next layer until it stops.
pub open spec fn paths_through(
    layers: Seq<usize>,
    inactive: Seq<(usize, usize)>,
    layer: nat,
    prefix: Seq<usize>,
    k: nat,
) -> Seq<Seq<usize>>
    decreases layers.len() - layer, k,
{
    if layer >= layers.len() || k == 0 {
        Seq::empty()
    } else {
        let node = (k - 1) as nat;
        let p = prefix.push(node as usize);
        let before = paths_through(layers, inactive, layer, prefix, node);
        if stops_at(layers, inactive, layer, node) {
            before.push(p)
        } else {
            before + paths_through(layers, inactive, layer + 1, p, layers[layer + 1int] as nat)
        }
    }
}

/// Every signal path of the network, starting from each node of the first
/// layer.
pub open spec fn all_paths(layers: Seq<usize>, inactive: Seq<(usize, usize)>) -> Seq<Seq<usize>> {
    if layers.len() == 0 {
        Seq::empty()
    } else {
        paths_through(layers, inactive, 0, Seq::empty(), layers[0] as nat)
    }
}

/// The views of a list of vectors.
pub open spec fn views(s: Seq<Vec<usize>>) -> Seq<Seq<usize>> {
    s.map_values(|v: Vec<usize>| v@)
}

/// Whether `pairs` lists `p`.
fn contains_pair(pairs: &Vec<(usize, usize)>, p: (usize, usize)) -> (r: bool)
    ensures
        r == pairs@.contains(p),
{
    let mut k: usize = 0;
    while k < pairs.len()
        invariant
            k <= pairs@.len(),
            forall|i: int| 0 <= i < k ==> pairs@[i] != p,
        decreases pairs@.len() - k,
    {
        if pairs[k].0 == p.0 && pairs[k].1 == p.1 {
            proof {
                assert(pairs@[k as int] == p);
            }
            return true;
        }
        k += 1;
    }
    false
}

impl NetworkTopology {
    pub fn new(layers: Vec<usize>) -> (t: Self)
        ensures
            t.layers == layers,
            t.inactive_nodes@ == Seq::<(usize, usize)>::empty(),
    {
        NetworkTopology { layers, inactive_nodes: Vec::new() }
    }

    /// Replaces the set of switched-off nodes; each is kept once.
    pub fn with_deactivated_nodes(self, nodes: Vec<(usize, usize)>) -> (t: Self)
        ensures
            t.layers == self.layers,
            t.inactive_nodes@.to_set() == nodes@.to_set(),
            t.inactive_nodes@.no_duplicates(),
    {
        let mut set: Vec<(usize, usize)> = Vec::new();
        let mut i: usize = 0;
        while i < nodes.len()
            invariant
                i <= nodes@.len(),
                set@.no_duplicates(),
                set@.to_set() == nodes@.take(i as int).to_set(),
            decreases nodes@.len() - i,
        {
            let pair = nodes[i];
            let ghost before = set@;
            if !contains_pair(&set, pair) {
                set.push(pair);
            }
            proof {
                assert(nodes@.take(i + 1) =~= nodes@.take(i as int).push(pair));
                broadcast use vstd::seq_lib::group_seq_properties;
                assert(nodes@.take(i as int).push(pair).to_set() =~= nodes@.take(i as int).to_set().insert(
                    pair,
                ));
                if before.contains(pair) {
                    assert(set@.to_set() =~= before.to_set().insert(pair));
                } else {
                    assert(set@ =~= before.push(pair));
                    assert(set@.to_set() =~= before.to_set().insert(pair));
                }
            }
            i += 1;
        }
        proof {
            assert(nodes@.take(nodes@.len() as int) =~= nodes@);
        }
        NetworkTopology { layers: self.layers, inactive_nodes: set }
    }

    /// Switches off node `node_idx` of layer `layer_idx`; a node already
    /// switched off stays listed once.
    pub fn deactivate_node(self, layer_idx: usize, node_idx: usize) -> (t: Self)
        ensures
            t.layers == self.layers,
            t.inactive_nodes@.to_set() == self.inactive_nodes@.to_set().insert((layer_idx, node_idx)),
            self.inactive_nodes@.no_duplicates() ==> t.inactive_nodes@.no_duplicates(),
    {
        let mut inactive = self.inactive_nodes;
        let ghost before = inactive@;
        if !contains_pair(&inactive, (layer_idx, node_idx)) {
            inactive.push((layer_idx, node_idx));
            proof {
                broadcast use vstd::seq_lib::group_seq_properties;
                assert(inactive@ =~= before.push((layer_idx, node_idx)));
            }
        }
        proof {
            broadcast use vstd::seq_lib::group_seq_properties;
            assert(inactive@.to_set() =~= before.to_set().insert((layer_idx, node_idx)));
        }
        NetworkTopology { layers: self.layers, inactive_nodes: inactive }
    }

    /// The node exists and is not switched off.
    pub fn is_node_active(&self, layer_idx: usize, node_idx: usize) -> (r: bool)
        ensures
            r == node_active(self.layers@, self.inactive_nodes@, layer_idx as nat, node_idx as nat),
    {
        if layer_idx >= self.layers.len() || node_idx >= self.layers[layer_idx] {
            return false;
        }
        let mut k: usize = 0;
        while k < self.inactive_nodes.len()
            invariant
                k <= self.inactive_nodes.len(),
                forall|i: int| 0 <= i < k ==> self.inactive_nodes@[i] != (layer_idx, node_idx),
            decreases self.inactive_nodes.len() - k,
        {
            let (l, n) = self.inactive_nodes[k];
            if l == layer_idx && n == node_idx {
                proof {
                    assert(self.inactive_nodes@[k as int] == (layer_idx, node_idx));
                }
                return false;
            }
            k += 1;
        }
        true
    }

    /// An edge is drawn active when its source is active and it joins
    /// consecutive layers.
    pub fn is_edge_active(
        &self,
        from_layer_idx: usize,
        from_node_idx: usize,
        to_layer_idx: usize,
        to_node_idx: usize,
    ) -> (r: bool)
        ensures
            r == (node_active(
                self.layers@,
                self.inactive_nodes@,
                from_layer_idx as nat,
                from_node_idx as nat,
            ) && to_layer_idx == from_layer_idx + 1),
    {
        if !self.is_node_active(from_layer_idx, from_node_idx) {
            return false;
        }
        assert(from_layer_idx < self.layers.len());
        to_layer_idx == from_layer_idx + 1
    }

    /// Whether `node_indices_per_layer` picks one active node in every
    /// layer: the condition under which it names a full signal path.
    pub fn is_full_path(&self, node_indices_per_layer: &Vec<usize>) -> (r: bool)
        ensures
            r == (node_indices_per_layer.len() == self.layers.len()
                && node_indices_per_layer.len() > 0 && forall|l: int|
                0 <= l < node_indices_per_layer.len() ==> node_active(
                    self.layers@,
                    self.inactive_nodes@,
                    l as nat,
                    #[trigger] node_indices_per_layer@[l] as nat,
                )),
    {
        if node_indices_per_layer.len() != self.layers.len() || node_indices_per_layer.len() == 0 {
            return false;
        }
        let mut l: usize = 0;
        while l < node_indices_per_layer.len()
            invariant
                l <= node_indices_per_layer.len(),
                forall|i: int|
                    0 <= i < l ==> node_active(
                        self.layers@,
                        self.inactive_nodes@,
                        i as nat,
                        #[trigger] node_indices_per_layer@[i] as nat,
                    ),
            decreases node_indices_per_layer.len() - l,
        {
            if !self.is_node_active(l, node_indices_per_layer[l]) {
                return false;
            }
            l += 1;
        }
        true
    }

    /// All signal paths, each as the node chosen in each layer it crosses.
    pub fn all_paths(&self) -> (r: Vec<Vec<usize>>)
        ensures
            views(r@) == all_paths(self.layers@, self.inactive_nodes@),
    {
        let mut out: Vec<Vec<usize>> = Vec::new();
        if self.layers.len() == 0 {
            return out;
        }
        let mut choices: Vec<usize> = Vec::new();
        self.collect_paths(0, &mut choices, &mut out);
        proof {
            assert(views(out@) =~= all_paths(self.layers@, self.inactive_nodes@));
        }
        out
    }

    fn collect_paths(&self, layer_idx: usize, node_choices: &mut Vec<usize>, all_paths: &mut Vec<Vec<usize>>)
        requires
            layer_idx < self.layers.len(),
        ensures
            final(node_choices)@ == old(node_choices)@,
            views(final(all_paths)@) == views(old(all_paths)@) + paths_through(
                self.layers@,
                self.inactive_nodes@,
                layer_idx as nat,
                old(node_choices)@,
                self.layers@[layer_idx as int] as nat,
            ),
        decreases self.layers.len() - layer_idx,
    {
        let count = self.layers[layer_idx];
        let ghost prefix = node_choices@;
        let ghost start = views(all_paths@);
        let mut node_idx: usize = 0;
        while node_idx < count
            invariant
                layer_idx < self.layers.len(),
                count == self.layers@[layer_idx as int],
                node_idx <= count,
                node_choices@ == prefix,
                views(all_paths@) == start + paths_through(
                    self.layers@,
                    self.inactive_nodes@,
                    layer_idx as nat,
                    prefix,
                    node_idx as nat,
                ),
            decreases count - node_idx,
        {
            node_choices.push(node_idx);
            let should_stop = !self.is_node_active(layer_idx, node_idx) || layer_idx + 1
                == self.layers.len();
            let ghost before = views(all_paths@);
            if should_stop {
                let path = node_choices.clone();
                proof {
                    assert(path@ =~= prefix.push(node_idx));
                }
                all_paths.push(path);
                proof {
                    assert(views(all_paths@) =~= before.push(prefix.push(node_idx)));
                }
            } else {
                self.collect_paths(layer_idx + 1, node_choices, all_paths);
            }
            node_choices.pop();
            proof {
                assert(node_choices@ =~= prefix);
                let p = prefix.push(node_idx);
                let b = paths_through(
                    self.layers@,
                    self.inactive_nodes@,
                    layer_idx as nat,
                    prefix,
                    node_idx as nat,
                );
                if should_stop {
                    assert(start + b.push(p) =~= (start + b).push(p));
                } else {
                    let rest = paths_through(
                        self.layers@,
                        self.inactive_nodes@,
                        (layer_idx + 1) as nat,
                        p,
                        self.layers@[layer_idx + 1] as nat,
                    );
                    assert(start + (b + rest) =~= (start + b) + rest);
                }
            }
            node_idx += 1;
        }
    }
}

/// A path of node choices, one per crossed layer, that ends where a signal
/// stops: every node it crosses exists, all but the last are active, and
/// the last is switched off or in the last layer.
pub open spec fn is_stopped_path(layers: Seq<usize>, inactive: Seq<(usize, usize)>, p: Seq<usize>) -> bool {
    &&& 1 <= p.len() <= layers.len()
    &&& forall|l: int| 0 <= l < p.len() ==> #[trigger] p[l] < layers[l]
    &&& forall|l: int| 0 <= l < p.len() - 1 ==> node_active(layers, inactive, l as nat, #[trigger] p[l] as nat)
    &&& stops_at(layers, inactive, (p.len() - 1) as nat, p[p.len() - 1] as nat)
}

/// The paths through a layer extend the prefix into stopped paths.
proof fn lemma_paths_through_stopped(
    layers: Seq<usize>,
    inactive: Seq<(usize, usize)>,
    layer: nat,
    prefix: Seq<usize>,
    k: nat,
)
    requires
        prefix.len() == layer,
        layer < layers.len(),
        k <= layers[layer as int],
        forall|l: int| 0 <= l < prefix.len() ==> #[trigger] prefix[l] < layers[l],
        forall|l: int| 0 <= l < prefix.len() ==> node_active(layers, inactive, l as nat, #[trigger] prefix[l] as nat),
        layers.len() <= usize::MAX,
    ensures
        forall|i: int|
            0 <= i < paths_through(layers, inactive, layer, prefix, k).len() ==> is_stopped_path(
                layers,
                inactive,
                #[trigger] paths_through(layers, inactive, layer, prefix, k)[i],
            ),
    decreases layers.len() - layer, k,
{
    if k > 0 {
        let node = (k - 1) as nat;
        let p = prefix.push(node as usize);
        lemma_paths_through_stopped(layers, inactive, layer, prefix, node);
        let before = paths_through(layers, inactive, layer, prefix, node);
        let all = paths_through(layers, inactive, layer, prefix, k);
        assert forall|l: int| 0 <= l < p.len() implies #[trigger] p[l] < layers[l] by {
            if l < prefix.len() {
                assert(p[l] == prefix[l]);
            }
        }
        if stops_at(layers, inactive, layer, node) {
            assert forall|i: int| 0 <= i < all.len() implies is_stopped_path(layers, inactive, #[trigger] all[i]) by {
                if i < before.len() {
                    assert(all[i] == before[i]);
                } else {
                    assert(all[i] == p);
                    assert forall|l: int| 0 <= l < p.len() - 1 implies node_active(
                        layers,
                        inactive,
                        l as nat,
                        #[trigger] p[l] as nat,
                    ) by {
                        assert(p[l] == prefix[l]);
                    }
                }
            }
        } else {
            assert forall|l: int| 0 <= l < p.len() implies node_active(
                layers,
                inactive,
                l as nat,
                #[trigger] p[l] as nat,
            ) by {
                if l < prefix.len() {
                    assert(p[l] == prefix[l]);
                }
            }
            lemma_paths_through_stopped(layers, inactive, layer + 1, p, layers[layer + 1int] as nat);
            let rest = paths_through(layers, inactive, layer + 1, p, layers[layer + 1int] as nat);
            assert forall|i: int| 0 <= i < all.len() implies is_stopped_path(layers, inactive, #[trigger] all[i]) by {
                if i < before.len() {
                    assert(all[i] == before[i]);
                } else {
                    assert(all[i] == rest[i - before.len()]);
                }
            }
        }
    }
}

/// Law: every signal path that the network yields starts in the first
/// layer, crosses existing nodes only, passes only through active nodes,
/// and ends where the signal stops (at a switched-off node or in the last
/// layer).
pub proof fn lemma_all_paths_are_stopped_paths(layers: Seq<usize>, inactive: Seq<(usize, usize)>)
    requires
        layers.len() <= usize::MAX,
    ensures
        forall|i: int|
            0 <= i < all_paths(layers, inactive).len() ==> is_stopped_path(
                layers,
                inactive,
                #[trigger] all_paths(layers, inactive)[i],
            ),
{
    if layers.len() > 0 {
        lemma_paths_through_stopped(layers, inactive, 0, Seq::empty(), layers[0] as nat);
    }
}

/// The product of the sizes of the layers from `layer` on.
pub open spec fn layer_product(layers: Seq<usize>, layer: nat) -> nat
    decreases layers.len() - layer,
{
    if layer >= layers.len() {
        1
    } else {
        layers[layer as int] as nat * layer_product(layers, layer + 1)
    }
}

proof fn lemma_paths_through_count(layers: Seq<usize>, layer: nat, prefix: Seq<usize>, k: nat)
    requires
        layer < layers.len(),
        k <= layers[layer as int],
        layers.len() <= usize::MAX,
    ensures
        paths_through(layers, Seq::empty(), layer, prefix, k).len() == k * layer_product(
            layers,
            layer + 1,
        ),
    decreases layers.len() - layer, k,
{
    if k > 0 {
        let node = (k - 1) as nat;
        let p = prefix.push(node as usize);
        lemma_paths_through_count(layers, layer, prefix, node);
        let rest_len = layer_product(layers, layer + 1);
        let before = paths_through(layers, Seq::empty(), layer, prefix, node);
        let all = paths_through(layers, Seq::empty(), layer, prefix, k);
        assert(!Seq::<(usize, usize)>::empty().contains((layer as usize, node as usize)));
        assert(node_active(layers, Seq::empty(), layer, node));
        if stops_at(layers, Seq::empty(), layer, node) {
            assert(layer + 1 == layers.len());
            assert(rest_len == 1);
            assert(all.len() == before.len() + 1);
        } else {
            lemma_paths_through_count(layers, layer + 1, p, layers[layer + 1int] as nat);
            assert(rest_len == layers[layer + 1int] as nat * layer_product(layers, layer + 2));
            assert(all.len() == before.len() + rest_len);
        }
        assert(all.len() == before.len() + rest_len);
        assert(before.len() == node * rest_len);
        assert(node * rest_len + rest_len == k * rest_len) by (nonlinear_arith)
            requires
                node + 1 == k,
        ;
        assert(all.len() == k * rest_len);
    } else {
        assert(paths_through(layers, Seq::empty(), layer, prefix, k).len() == 0);
    }
}

/// Law: with no switched-off node, the network yields one signal path for
/// every choice of a node in each layer: as many paths as the product of
/// the layer sizes.
pub proof fn lemma_full_network_path_count(layers: Seq<usize>)
    requires
        layers.len() <= usize::MAX,
    ensures
        layers.len() > 0 ==> all_paths(layers, Seq::empty()).len() == layer_product(layers, 0),
{
    if layers.len() > 0 {
        lemma_paths_through_count(layers, 0, Seq::empty(), layers[0] as nat);
    }
}

} // verus!
