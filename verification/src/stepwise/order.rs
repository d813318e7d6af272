//! The build order of a stepwise script: Kahn's topological sort over the
//! script's connections, processed first-in first-out.
//!
//! The order is defined here as the run of Kahn's state machine; the laws
//! below show that it never lists a step twice, lists a step only after the
//! sources of all connections into it, and lists every step when the
//! connections admit a ranking (that is, when they form no cycle).
use std::collections::VecDeque;
use vstd::prelude::*;

verus! {

/// Targets of the connections that leave `u`, in connection order.
pub open spec fn targets_from(pairs: Seq<(usize, usize)>, u: usize) -> Seq<usize>
    decreases pairs.len(),
{
    if pairs.len() == 0 {
        Seq::empty()
    } else {
        let prev = targets_from(pairs.drop_last(), u);
        if pairs.last().0 == u {
            prev.push(pairs.last().1)
        } else {
            prev
        }
    }
}

/// Number of connections into `v` whose source is not listed in `done`.
pub open spec fn pending_into(pairs: Seq<(usize, usize)>, done: Seq<usize>, v: usize) -> nat
    decreases pairs.len(),
{
    if pairs.len() == 0 {
        0
    } else {
        pending_into(pairs.drop_last(), done, v) + if pairs.last().1 == v && !done.contains(
            pairs.last().0,
        ) {
            1nat
        } else {
            0nat
        }
    }
}

/// Number of times `v` occurs in `s`.
pub open spec fn occurrences(s: Seq<usize>, v: usize) -> nat
    decreases s.len(),
{
    if s.len() == 0 {
        0
    } else {
        occurrences(s.drop_first(), v) + if s[0] == v {
            1nat
        } else {
            0nat
        }
    }
}

/// Every connection joins two of the first `n` steps.
pub open spec fn endpoints_below(pairs: Seq<(usize, usize)>, n: nat) -> bool {
    forall|j: int| 0 <= j < pairs.len() ==> pairs[j].0 < n && pairs[j].1 < n
}

/// The outgoing targets of each of the first `n` steps.
pub open spec fn adjacency(n: nat, pairs: Seq<(usize, usize)>) -> Seq<Seq<usize>> {
    Seq::new(n, |u: int| targets_from(pairs, u as usize))
}

/// In-degree of each of the first `n` steps.
pub open spec fn initial_in_degrees(n: nat, pairs: Seq<(usize, usize)>) -> Seq<int> {
    Seq::new(n, |v: int| pending_into(pairs, Seq::empty(), v as usize) as int)
}

/// The steps below `k` whose degree is zero, in increasing order.
pub open spec fn zero_degree_steps(degrees: Seq<int>, k: nat) -> Seq<usize>
    decreases k,
{
    if k == 0 {
        Seq::empty()
    } else {
        let prev = zero_degree_steps(degrees, (k - 1) as nat);
        if degrees[k - 1] == 0 {
            prev.push((k - 1) as usize)
        } else {
            prev
        }
    }
}

/// Decrements the degree of each neighbour in turn, queueing those that
/// reach zero.
pub open spec fn relax(nbrs: Seq<usize>, queue: Seq<usize>, degrees: Seq<int>) -> (
    Seq<usize>,
    Seq<int>,
)
    decreases nbrs.len(),
{
    if nbrs.len() == 0 {
        (queue, degrees)
    } else {
        let (q, d) = relax(nbrs.drop_last(), queue, degrees);
        let nb = nbrs.last();
        let d2 = d.update(nb as int, d[nb as int] - 1);
        (
            if d2[nb as int] == 0 {
                q.push(nb)
            } else {
                q
            },
            d2,
        )
    }
}

/// One step of the sort on (queue, degrees, order): the front of the queue
/// is listed and its neighbours are relaxed.
pub open spec fn kahn_step(st: (Seq<usize>, Seq<int>, Seq<usize>), adj: Seq<Seq<usize>>) -> (
    Seq<usize>,
    Seq<int>,
    Seq<usize>,
) {
    let node = st.0[0];
    let (q, d) = relax(adj[node as int], st.0.drop_first(), st.1);
    (q, d, st.2.push(node))
}

/// At most `fuel` steps of the sort, stopping when the queue is empty.
pub open spec fn kahn_run(
    st: (Seq<usize>, Seq<int>, Seq<usize>),
    adj: Seq<Seq<usize>>,
    fuel: nat,
) -> (Seq<usize>, Seq<int>, Seq<usize>)
    decreases fuel,
{
    if fuel == 0 || st.0.len() == 0 {
        st
    } else {
        kahn_run(kahn_step(st, adj), adj, (fuel - 1) as nat)
    }
}

/// The state before the first step: every step of in-degree zero is queued.
pub open spec fn kahn_start(n: nat, pairs: Seq<(usize, usize)>) -> (
    Seq<usize>,
    Seq<int>,
    Seq<usize>,
) {
    let d = initial_in_degrees(n, pairs);
    (zero_degree_steps(d, n), d, Seq::empty())
}

/// The order in which the sort lists the steps `0..n` under the connections
/// `pairs`.
pub open spec fn topological_order(n: nat, pairs: Seq<(usize, usize)>) -> Seq<usize> {
    kahn_run(kahn_start(n, pairs), adjacency(n, pairs), n).2
}

/// The facts that every state of the sort keeps.
pub open spec fn kahn_inv(
    st: (Seq<usize>, Seq<int>, Seq<usize>),
    n: nat,
    pairs: Seq<(usize, usize)>,
) -> bool {
    let listed = st.2 + st.0;
    &&& st.1.len() == n
    &&& forall|v: int| 0 <= v < n ==> #[trigger] st.1[v] == pending_into(pairs, st.2, v as usize)
    &&& forall|v: int| 0 <= v < n ==> (listed.contains(v as usize) <==> #[trigger] st.1[v] == 0)
    &&& listed.no_duplicates()
    &&& forall|i: int| 0 <= i < listed.len() ==> #[trigger] listed[i] < n
    &&& forall|p: int|
        0 <= p < st.2.len() ==> pending_into(pairs, #[trigger] st.2.take(p), st.2[p]) == 0
}

/// The facts kept while the neighbours of a listed step are relaxed; `rest`
/// holds the neighbours not relaxed yet.
pub open spec fn relax_inv(
    q: Seq<usize>,
    d: Seq<int>,
    done: Seq<usize>,
    rest: Seq<usize>,
    n: nat,
    pairs: Seq<(usize, usize)>,
) -> bool {
    let listed = done + q;
    &&& d.len() == n
    &&& forall|v: int|
        0 <= v < n ==> #[trigger] d[v] == pending_into(pairs, done, v as usize) + occurrences(
            rest,
            v as usize,
        )
    &&& forall|v: int| 0 <= v < n ==> (listed.contains(v as usize) <==> #[trigger] d[v] == 0)
    &&& listed.no_duplicates()
    &&& forall|i: int| 0 <= i < listed.len() ==> #[trigger] listed[i] < n
}

pub proof fn lemma_occurrences_push(s: Seq<usize>, x: usize, v: usize)
    ensures
        occurrences(s.push(x), v) == occurrences(s, v) + if x == v {
            1nat
        } else {
            0nat
        },
    decreases s.len(),
{
    let t = s.push(x);
    if s.len() == 0 {
        assert(t.drop_first() =~= Seq::<usize>::empty());
        assert(occurrences(t.drop_first(), v) == 0);
        assert(t[0] == x);
    } else {
        assert(t.drop_first() =~= s.drop_first().push(x));
        assert(t[0] == s[0]);
        lemma_occurrences_push(s.drop_first(), x, v);
    }
}

pub proof fn lemma_occurrences_skip(s: Seq<usize>, k: int, v: usize)
    requires
        0 <= k < s.len(),
    ensures
        occurrences(s.skip(k), v) == occurrences(s.skip(k + 1), v) + if s[k] == v {
            1nat
        } else {
            0nat
        },
{
    assert(s.skip(k).drop_first() =~= s.skip(k + 1));
}

pub proof fn lemma_targets_below(pairs: Seq<(usize, usize)>, u: usize, n: nat)
    requires
        endpoints_below(pairs, n),
    ensures
        forall|i: int|
            0 <= i < targets_from(pairs, u).len() ==> #[trigger] targets_from(pairs, u)[i] < n,
    decreases pairs.len(),
{
    if pairs.len() > 0 {
        let dl = pairs.drop_last();
        assert(endpoints_below(dl, n)) by {
            assert forall|j: int| 0 <= j < dl.len() implies dl[j].0 < n && dl[j].1 < n by {
                assert(dl[j] == pairs[j]);
            }
        }
        lemma_targets_below(dl, u, n);
        let prev = targets_from(dl, u);
        let t = targets_from(pairs, u);
        assert forall|i: int| 0 <= i < t.len() implies #[trigger] t[i] < n by {
            if i < prev.len() {
                assert(t[i] == prev[i]);
            } else {
                assert(t[i] == pairs.last().1);
                assert(pairs[pairs.len() - 1].1 < n);
            }
        }
    }
}

/// Listing `node` removes from the pending count of `v` exactly the
/// connections from `node` to `v`.
pub proof fn lemma_pending_split(pairs: Seq<(usize, usize)>, done: Seq<usize>, node: usize, v: usize)
    requires
        !done.contains(node),
    ensures
        pending_into(pairs, done, v) == pending_into(pairs, done.push(node), v) + occurrences(
            targets_from(pairs, node),
            v,
        ),
    decreases pairs.len(),
{
    if pairs.len() > 0 {
        let dl = pairs.drop_last();
        let last = pairs.last();
        lemma_pending_split(dl, done, node, v);
        assert(done.push(node).contains(last.0) <==> (done.contains(last.0) || last.0 == node)) by {
            if done.push(node).contains(last.0) {
                let i = choose|i: int| 0 <= i < done.push(node).len() && done.push(node)[i] == last.0;
                if i < done.len() {
                    assert(done[i] == last.0);
                }
            }
            if done.contains(last.0) {
                let i = choose|i: int| 0 <= i < done.len() && done[i] == last.0;
                assert(done.push(node)[i] == last.0);
            }
            if last.0 == node {
                assert(done.push(node)[done.len() as int] == node);
            }
        }
        if last.0 == node {
            lemma_occurrences_push(targets_from(dl, node), last.1, v);
        }
    }
}

/// A step with no pending connections has the source of every connection
/// into it listed.
pub proof fn lemma_pending_zero_source(
    pairs: Seq<(usize, usize)>,
    done: Seq<usize>,
    v: usize,
    j: int,
)
    requires
        pending_into(pairs, done, v) == 0,
        0 <= j < pairs.len(),
        pairs[j].1 == v,
    ensures
        done.contains(pairs[j].0),
    decreases pairs.len(),
{
    if j < pairs.len() - 1 {
        lemma_pending_zero_source(pairs.drop_last(), done, v, j);
    }
}

/// A step with pending connections has a connection into it from an
/// unlisted source.
pub proof fn lemma_pending_source(pairs: Seq<(usize, usize)>, done: Seq<usize>, v: usize) -> (j: int)
    requires
        pending_into(pairs, done, v) > 0,
    ensures
        0 <= j < pairs.len(),
        pairs[j].1 == v,
        !done.contains(pairs[j].0),
    decreases pairs.len(),
{
    let dl = pairs.drop_last();
    if pending_into(dl, done, v) > 0 {
        let j = lemma_pending_source(dl, done, v);
        assert(pairs[j] == dl[j]);
        j
    } else {
        (pairs.len() - 1) as int
    }
}

pub proof fn lemma_push_no_duplicates(s: Seq<usize>, x: usize)
    requires
        s.no_duplicates(),
        !s.contains(x),
    ensures
        s.push(x).no_duplicates(),
{
    assert forall|i: int, j: int|
        0 <= i < s.push(x).len() && 0 <= j < s.push(x).len() && i != j implies s.push(x)[i]
        != s.push(x)[j] by {
        if i < s.len() && j < s.len() {
        } else if i < s.len() {
            assert(s[i] == s.push(x)[i]);
        } else if j < s.len() {
            assert(s[j] == s.push(x)[j]);
        }
    }
}

/// The set of the first `n` values of `usize`.
pub open spec fn usize_range(n: nat) -> Set<usize> {
    Set::new(|x: usize| x < n)
}

pub proof fn lemma_usize_range_len(n: nat)
    requires
        n <= usize::MAX + 1,
    ensures
        usize_range(n).finite(),
        usize_range(n).len() == n,
    decreases n,
{
    if n == 0 {
        assert(usize_range(n) =~= Set::empty());
    } else {
        lemma_usize_range_len((n - 1) as nat);
        assert(usize_range((n - 1) as nat).insert((n - 1) as usize) =~= usize_range(n));
    }
}

/// A duplicate-free sequence of values below `n` is no longer than `n`.
pub proof fn lemma_distinct_below_len(s: Seq<usize>, n: nat)
    requires
        s.no_duplicates(),
        forall|i: int| 0 <= i < s.len() ==> #[trigger] s[i] < n,
        n <= usize::MAX + 1,
    ensures
        s.len() <= n,
{
    s.unique_seq_to_set();
    lemma_usize_range_len(n);
    assert(s.to_set().subset_of(usize_range(n))) by {
        assert forall|x: usize| s.to_set().contains(x) implies usize_range(n).contains(x) by {
            let i = choose|i: int| 0 <= i < s.len() && s[i] == x;
        }
    }
    vstd::set_lib::lemma_len_subset(s.to_set(), usize_range(n));
}

/// A duplicate-free sequence of values below `n` that holds every value
/// below `n` has length `n`.
pub proof fn lemma_distinct_cover_len(s: Seq<usize>, n: nat)
    requires
        s.no_duplicates(),
        forall|i: int| 0 <= i < s.len() ==> #[trigger] s[i] < n,
        forall|v: usize| v < n ==> s.contains(v),
        n <= usize::MAX + 1,
    ensures
        s.len() == n,
{
    lemma_distinct_below_len(s, n);
    s.unique_seq_to_set();
    lemma_usize_range_len(n);
    vstd::seq_lib::seq_to_set_is_finite(s);
    assert(usize_range(n).subset_of(s.to_set())) by {
        assert forall|x: usize| usize_range(n).contains(x) implies s.to_set().contains(x) by {
            assert(s.contains(x));
        }
    }
    vstd::set_lib::lemma_len_subset(usize_range(n), s.to_set());
}

pub proof fn lemma_push_contains(s: Seq<usize>, x: usize, v: usize)
    ensures
        s.push(x).contains(v) <==> (s.contains(v) || v == x),
{
    if s.push(x).contains(v) {
        let i = choose|i: int| 0 <= i < s.push(x).len() && s.push(x)[i] == v;
        if i < s.len() {
            assert(s[i] == v);
        }
    }
    if s.contains(v) {
        let i = choose|i: int| 0 <= i < s.len() && s[i] == v;
        assert(s.push(x)[i] == v);
    }
    if v == x {
        assert(s.push(x)[s.len() as int] == x);
    }
}

pub proof fn lemma_zero_degree_steps(d: Seq<int>, k: nat)
    requires
        k <= d.len(),
        k <= usize::MAX + 1,
    ensures
        zero_degree_steps(d, k).no_duplicates(),
        forall|i: int|
            0 <= i < zero_degree_steps(d, k).len() ==> #[trigger] zero_degree_steps(d, k)[i] < k,
        forall|v: usize| #[trigger]
            zero_degree_steps(d, k).contains(v) <==> (v < k && d[v as int] == 0),
    decreases k,
{
    if k > 0 {
        let prev = zero_degree_steps(d, (k - 1) as nat);
        lemma_zero_degree_steps(d, (k - 1) as nat);
        let x = (k - 1) as usize;
        assert forall|v: usize| #[trigger]
            zero_degree_steps(d, k).contains(v) <==> (v < k && d[v as int] == 0) by {
            lemma_push_contains(prev, x, v);
        }
        if d[k - 1] == 0 {
            lemma_push_no_duplicates(prev, x);
            assert forall|i: int| 0 <= i < prev.push(x).len() implies #[trigger] prev.push(x)[i]
                < k by {
                if i < prev.len() {
                    assert(prev.push(x)[i] == prev[i]);
                }
            }
        }
    }
}

pub proof fn lemma_relax_take(nbrs: Seq<usize>, k: int, q: Seq<usize>, d: Seq<int>)
    requires
        0 <= k < nbrs.len(),
    ensures
        ({
            let (q1, d1) = relax(nbrs.take(k), q, d);
            let nb = nbrs[k];
            let d2 = d1.update(nb as int, d1[nb as int] - 1);
            relax(nbrs.take(k + 1), q, d) == (
                if d2[nb as int] == 0 {
                    q1.push(nb)
                } else {
                    q1
                },
                d2,
            )
        }),
{
    assert(nbrs.take(k + 1).drop_last() =~= nbrs.take(k));
    assert(nbrs.take(k + 1).last() == nbrs[k]);
}

pub proof fn lemma_relax_preserves(
    nbrs: Seq<usize>,
    k: int,
    q0: Seq<usize>,
    d0: Seq<int>,
    done: Seq<usize>,
    n: nat,
    pairs: Seq<(usize, usize)>,
)
    requires
        relax_inv(q0, d0, done, nbrs, n, pairs),
        n <= usize::MAX,
        0 <= k <= nbrs.len(),
        forall|i: int| 0 <= i < nbrs.len() ==> #[trigger] nbrs[i] < n,
    ensures
        relax_inv(
            relax(nbrs.take(k), q0, d0).0,
            relax(nbrs.take(k), q0, d0).1,
            done,
            nbrs.skip(k),
            n,
            pairs,
        ),
    decreases k,
{
    if k == 0 {
        assert(nbrs.take(0) =~= Seq::<usize>::empty());
        assert(nbrs.skip(0) =~= nbrs);
    } else {
        lemma_relax_preserves(nbrs, k - 1, q0, d0, done, n, pairs);
        lemma_relax_take(nbrs, k - 1, q0, d0);
        let (q, d) = relax(nbrs.take(k - 1), q0, d0);
        let nb = nbrs[k - 1];
        let d2 = d.update(nb as int, d[nb as int] - 1);
        let q2 = if d2[nb as int] == 0 {
            q.push(nb)
        } else {
            q
        };
        assert(relax(nbrs.take(k), q0, d0) == (q2, d2));
        lemma_occurrences_skip(nbrs, k - 1, nb);
        assert(d[nb as int] >= 1);
        assert forall|v: int| 0 <= v < n implies #[trigger] d2[v] == pending_into(
            pairs,
            done,
            v as usize,
        ) + occurrences(nbrs.skip(k), v as usize) by {
            lemma_occurrences_skip(nbrs, k - 1, v as usize);
            assert(d[v] == pending_into(pairs, done, v as usize) + occurrences(
                nbrs.skip(k - 1),
                v as usize,
            ));
        }
        let listed = done + q;
        assert(!listed.contains(nb));
        if d2[nb as int] == 0 {
            assert(done + q2 =~= listed.push(nb));
            lemma_push_no_duplicates(listed, nb);
            assert forall|v: int| 0 <= v < n implies ((done + q2).contains(v as usize)
                <==> #[trigger] d2[v] == 0) by {
                lemma_push_contains(listed, nb, v as usize);
            }
            assert forall|i: int| 0 <= i < (done + q2).len() implies #[trigger] (done + q2)[i]
                < n by {
                if i < listed.len() {
                    assert((done + q2)[i] == listed[i]);
                }
            }
        }
    }
}

pub proof fn lemma_kahn_start_inv(n: nat, pairs: Seq<(usize, usize)>)
    requires
        n <= usize::MAX,
    ensures
        kahn_inv(kahn_start(n, pairs), n, pairs),
{
    let st = kahn_start(n, pairs);
    let d = st.1;
    lemma_zero_degree_steps(d, n);
    assert(st.2 + st.0 =~= st.0);
    assert forall|v: int| 0 <= v < n implies #[trigger] st.1[v] == pending_into(
        pairs,
        st.2,
        v as usize,
    ) by {}
    assert forall|v: int| 0 <= v < n implies ((st.2 + st.0).contains(v as usize) <==> #[trigger] st.1[v]
        == 0) by {
        assert(zero_degree_steps(d, n).contains(v as usize) <==> (v < n && d[v] == 0));
    }
}

pub proof fn lemma_kahn_step_inv(st: (Seq<usize>, Seq<int>, Seq<usize>), n: nat, pairs: Seq<(usize, usize)>)
    requires
        kahn_inv(st, n, pairs),
        st.0.len() > 0,
        endpoints_below(pairs, n),
        n <= usize::MAX,
    ensures
        kahn_inv(kahn_step(st, adjacency(n, pairs)), n, pairs),
{
    lemma_kahn_step_base(st, n, pairs);
    let listed = st.2 + st.0;
    let node = st.0[0];
    let done = st.2.push(node);
    let q0 = st.0.drop_first();
    let adj = adjacency(n, pairs);
    let nbrs = targets_from(pairs, node);
    lemma_relax_preserves(nbrs, nbrs.len() as int, q0, st.1, done, n, pairs);
    assert(nbrs.take(nbrs.len() as int) =~= nbrs);
    assert(nbrs.skip(nbrs.len() as int) =~= Seq::<usize>::empty());
    let next = kahn_step(st, adj);
    assert(next.2 == done);
    assert forall|v: int| 0 <= v < n implies #[trigger] next.1[v] == pending_into(
        pairs,
        next.2,
        v as usize,
    ) by {
        assert(occurrences(Seq::<usize>::empty(), v as usize) == 0);
    }
    assert forall|p: int| 0 <= p < next.2.len() implies pending_into(
        pairs,
        #[trigger] next.2.take(p),
        next.2[p],
    ) == 0 by {
        if p < st.2.len() {
            assert(next.2.take(p) =~= st.2.take(p));
            assert(next.2[p] == st.2[p]);
        } else {
            assert(next.2.take(p) =~= st.2);
            assert(listed[st.2.len() as int] == node);
            assert(listed.contains(node));
            assert(st.1[node as int] == 0);
        }
    }
}

/// Before the neighbours of the front of the queue are relaxed, the relax
/// invariant holds with the front listed.
pub proof fn lemma_kahn_step_base(
    st: (Seq<usize>, Seq<int>, Seq<usize>),
    n: nat,
    pairs: Seq<(usize, usize)>,
)
    requires
        kahn_inv(st, n, pairs),
        st.0.len() > 0,
        endpoints_below(pairs, n),
        n <= usize::MAX,
    ensures
        st.0[0] < n,
        !st.2.contains(st.0[0]),
        relax_inv(
            st.0.drop_first(),
            st.1,
            st.2.push(st.0[0]),
            targets_from(pairs, st.0[0]),
            n,
            pairs,
        ),
        forall|i: int|
            0 <= i < targets_from(pairs, st.0[0]).len() ==> #[trigger] targets_from(
                pairs,
                st.0[0],
            )[i] < n,
        adjacency(n, pairs)[st.0[0] as int] == targets_from(pairs, st.0[0]),
{
    let listed = st.2 + st.0;
    let node = st.0[0];
    assert(listed[st.2.len() as int] == node);
    assert(node < n);
    assert(!st.2.contains(node)) by {
        if st.2.contains(node) {
            let i = choose|i: int| 0 <= i < st.2.len() && st.2[i] == node;
            assert(listed[i] == node);
        }
    }
    let done = st.2.push(node);
    let q0 = st.0.drop_first();
    assert(done + q0 =~= listed);
    let adj = adjacency(n, pairs);
    let nbrs = targets_from(pairs, node);
    assert(adj[node as int] == nbrs);
    lemma_targets_below(pairs, node, n);
    assert forall|v: int| 0 <= v < n implies #[trigger] st.1[v] == pending_into(
        pairs,
        done,
        v as usize,
    ) + occurrences(nbrs, v as usize) by {
        lemma_pending_split(pairs, st.2, node, v as usize);
    }
    assert(relax_inv(q0, st.1, done, nbrs, n, pairs));
}

pub proof fn lemma_kahn_run_inv(
    st: (Seq<usize>, Seq<int>, Seq<usize>),
    n: nat,
    pairs: Seq<(usize, usize)>,
    fuel: nat,
)
    requires
        kahn_inv(st, n, pairs),
        endpoints_below(pairs, n),
        n <= usize::MAX,
    ensures
        kahn_inv(kahn_run(st, adjacency(n, pairs), fuel), n, pairs),
        kahn_run(st, adjacency(n, pairs), fuel).0.len() == 0 || kahn_run(
            st,
            adjacency(n, pairs),
            fuel,
        ).2.len() == st.2.len() + fuel,
    decreases fuel,
{
    if fuel > 0 && st.0.len() > 0 {
        lemma_kahn_step_inv(st, n, pairs);
        lemma_kahn_run_inv(kahn_step(st, adjacency(n, pairs)), n, pairs, (fuel - 1) as nat);
    }
}

pub proof fn lemma_kahn_run_succ(
    st: (Seq<usize>, Seq<int>, Seq<usize>),
    adj: Seq<Seq<usize>>,
    i: nat,
)
    requires
        kahn_run(st, adj, i).0.len() > 0,
    ensures
        kahn_run(st, adj, i + 1) == kahn_step(kahn_run(st, adj, i), adj),
    decreases i,
{
    if i == 0 {
        assert(kahn_run(kahn_step(st, adj), adj, 0) == kahn_step(st, adj));
    } else {
        if st.0.len() > 0 {
            lemma_kahn_run_succ(kahn_step(st, adj), adj, (i - 1) as nat);
        }
    }
}

pub proof fn lemma_kahn_run_done(
    st: (Seq<usize>, Seq<int>, Seq<usize>),
    adj: Seq<Seq<usize>>,
    i: nat,
    j: nat,
)
    requires
        i <= j,
        kahn_run(st, adj, i).0.len() == 0,
    ensures
        kahn_run(st, adj, j) == kahn_run(st, adj, i),
    decreases i,
{
    if i > 0 && st.0.len() > 0 {
        lemma_kahn_run_done(kahn_step(st, adj), adj, (i - 1) as nat, (j - 1) as nat);
    }
}

/// The final state of the sort keeps the invariant and has an empty queue.
pub proof fn lemma_kahn_final(n: nat, pairs: Seq<(usize, usize)>)
    requires
        endpoints_below(pairs, n),
        n <= usize::MAX,
    ensures
        kahn_inv(kahn_run(kahn_start(n, pairs), adjacency(n, pairs), n), n, pairs),
        kahn_run(kahn_start(n, pairs), adjacency(n, pairs), n).0.len() == 0,
{
    let st = kahn_run(kahn_start(n, pairs), adjacency(n, pairs), n);
    lemma_kahn_start_inv(n, pairs);
    lemma_kahn_run_inv(kahn_start(n, pairs), n, pairs, n);
    lemma_distinct_below_len(st.2 + st.0, n);
}

/// Law: the build order lists each step at most once, and only steps that
/// exist.
pub proof fn lemma_order_lists_each_step_once(n: nat, pairs: Seq<(usize, usize)>)
    requires
        endpoints_below(pairs, n),
        n <= usize::MAX,
    ensures
        topological_order(n, pairs).no_duplicates(),
        forall|i: int|
            0 <= i < topological_order(n, pairs).len() ==> #[trigger] topological_order(n, pairs)[i]
                < n,
{
    lemma_kahn_final(n, pairs);
    let st = kahn_run(kahn_start(n, pairs), adjacency(n, pairs), n);
    assert(st.2 + st.0 =~= st.2);
}

/// Law: a step is listed only after the source of every connection into it.
pub proof fn lemma_order_respects_connections(n: nat, pairs: Seq<(usize, usize)>, j: int, p: int)
    requires
        endpoints_below(pairs, n),
        n <= usize::MAX,
        0 <= j < pairs.len(),
        0 <= p < topological_order(n, pairs).len(),
        topological_order(n, pairs)[p] == pairs[j].1,
    ensures
        exists|q: int| 0 <= q < p && topological_order(n, pairs)[q] == pairs[j].0,
{
    lemma_kahn_final(n, pairs);
    let order = topological_order(n, pairs);
    assert(pending_into(pairs, order.take(p), order[p]) == 0);
    lemma_pending_zero_source(pairs, order.take(p), order[p], j);
    let q = choose|q: int| 0 <= q < order.take(p).len() && order.take(p)[q] == pairs[j].0;
    assert(order[q] == pairs[j].0);
}

/// Every step of rank at most `k` is listed by the sort.
proof fn lemma_ranked_steps_listed(
    n: nat,
    pairs: Seq<(usize, usize)>,
    rank: spec_fn(usize) -> nat,
    k: nat,
)
    requires
        endpoints_below(pairs, n),
        n <= usize::MAX,
        forall|j: int| 0 <= j < pairs.len() ==> rank(#[trigger] pairs[j].0) < rank(pairs[j].1),
    ensures
        forall|v: usize| v < n && rank(v) <= k ==> #[trigger] topological_order(n, pairs).contains(v),
    decreases k,
{
    lemma_kahn_final(n, pairs);
    let st = kahn_run(kahn_start(n, pairs), adjacency(n, pairs), n);
    let order = st.2;
    if k > 0 {
        lemma_ranked_steps_listed(n, pairs, rank, (k - 1) as nat);
    }
    assert forall|v: usize| v < n && rank(v) <= k implies #[trigger] order.contains(v) by {
        assert(st.2 + st.0 =~= order);
        if !order.contains(v) {
            assert(st.1[v as int] != 0);
            assert(st.1[v as int] == pending_into(pairs, st.2, v));
            let j = lemma_pending_source(pairs, order, v);
            let u = pairs[j].0;
            assert(rank(u) < rank(pairs[j].1));
            assert(u < n);
            assert(k > 0);
            assert(rank(u) <= (k - 1) as nat);
            assert(topological_order(n, pairs).contains(u));
        }
    }
}

/// Law: when the connections admit a ranking that every connection
/// climbs, the build order lists every step exactly once: it is a
/// permutation of the steps.
pub proof fn lemma_acyclic_order_is_permutation(
    n: nat,
    pairs: Seq<(usize, usize)>,
    rank: spec_fn(usize) -> nat,
)
    requires
        endpoints_below(pairs, n),
        n <= usize::MAX,
        forall|j: int| 0 <= j < pairs.len() ==> rank(#[trigger] pairs[j].0) < rank(pairs[j].1),
    ensures
        topological_order(n, pairs).len() == n,
        topological_order(n, pairs).no_duplicates(),
        forall|v: usize| v < n ==> #[trigger] topological_order(n, pairs).contains(v),
{
    let order = topological_order(n, pairs);
    lemma_order_lists_each_step_once(n, pairs);
    assert forall|v: usize| v < n implies #[trigger] order.contains(v) by {
        lemma_ranked_steps_listed(n, pairs, rank, rank(v));
    }
    lemma_distinct_cover_len(order, n);
}

pub proof fn lemma_pending_bound(pairs: Seq<(usize, usize)>, done: Seq<usize>, v: usize)
    ensures
        pending_into(pairs, done, v) <= pairs.len(),
    decreases pairs.len(),
{
    if pairs.len() > 0 {
        lemma_pending_bound(pairs.drop_last(), done, v);
    }
}

/// Degrees held as machine integers, seen as mathematical integers.
pub open spec fn degree_view(d: Seq<usize>) -> Seq<int> {
    d.map_values(|x: usize| x as int)
}

/// Kahn's topological sort of the steps `0..n`: steps of in-degree zero are
/// queued in increasing order; each step taken from the front of the queue
/// is listed and the in-degree of each of its targets drops by one, queueing
/// those that reach zero. Steps on a cycle are never listed.
pub fn topological_sort(n: usize, pairs: &Vec<(usize, usize)>) -> (order: Vec<usize>)
    requires
        endpoints_below(pairs@, n as nat),
    ensures
        order@ == topological_order(n as nat, pairs@),
{
    let ghost ps = pairs@;
    let mut in_degree: Vec<usize> = Vec::new();
    let mut adj: Vec<Vec<usize>> = Vec::new();
    let mut i: usize = 0;
    while i < n
        invariant
            i <= n,
            in_degree.len() == i,
            adj.len() == i,
            forall|v: int| 0 <= v < i ==> #[trigger] in_degree[v] == 0,
            forall|u: int| 0 <= u < i ==> #[trigger] adj[u]@ == Seq::<usize>::empty(),
        decreases n - i,
    {
        in_degree.push(0);
        adj.push(Vec::new());
        i += 1;
    }
    let mut j: usize = 0;
    while j < pairs.len()
        invariant
            ps == pairs@,
            endpoints_below(ps, n as nat),
            j <= pairs.len(),
            in_degree.len() == n,
            adj.len() == n,
            forall|v: int|
                0 <= v < n ==> #[trigger] in_degree[v] as nat == pending_into(
                    ps.take(j as int),
                    Seq::empty(),
                    v as usize,
                ),
            forall|u: int|
                0 <= u < n ==> #[trigger] adj[u]@ == targets_from(ps.take(j as int), u as usize),
        decreases pairs.len() - j,
    {
        let (from, to) = pairs[j];
        proof {
            assert(ps.take(j + 1).drop_last() =~= ps.take(j as int));
            assert(ps.take(j + 1).last() == ps[j as int]);
            lemma_pending_bound(ps.take(j as int), Seq::empty(), to);
        }
        if from < n && to < n {
            let mut row = adj[from].clone();
            row.push(to);
            adj.set(from, row);
            in_degree.set(to, in_degree[to] + 1);
        }
        j += 1;
    }
    proof {
        assert(ps.take(pairs.len() as int) =~= ps);
    }
    let ghost start = kahn_start(n as nat, ps);
    let ghost adjs = adjacency(n as nat, ps);
    assert(degree_view(in_degree@) =~= start.1);
    let mut queue: VecDeque<usize> = VecDeque::new();
    let mut v: usize = 0;
    while v < n
        invariant
            v <= n,
            in_degree.len() == n,
            degree_view(in_degree@) == start.1,
            start.1.len() == n,
            queue@ == zero_degree_steps(start.1, v as nat),
        decreases n - v,
    {
        if in_degree[v] == 0 {
            queue.push_back(v);
        }
        v += 1;
    }
    proof {
        lemma_kahn_start_inv(n as nat, ps);
    }
    let mut order: Vec<usize> = Vec::new();
    loop
        invariant
            ps == pairs@,
            start == kahn_start(n as nat, ps),
            adjs == adjacency(n as nat, ps),
            endpoints_below(ps, n as nat),
            in_degree.len() == n,
            adj.len() == n,
            forall|u: int| 0 <= u < n ==> #[trigger] adj[u]@ == targets_from(ps, u as usize),
            kahn_inv(kahn_run(start, adjs, order.len() as nat), n as nat, ps),
            queue@ == kahn_run(start, adjs, order.len() as nat).0,
            degree_view(in_degree@) == kahn_run(start, adjs, order.len() as nat).1,
            order@ == kahn_run(start, adjs, order.len() as nat).2,
        ensures
            order@ == topological_order(n as nat, ps),
        decreases n - order.len(),
    {
        let ghost st = kahn_run(start, adjs, order.len() as nat);
        proof {
            lemma_distinct_below_len(st.2 + st.0, n as nat);
        }
        let node = match queue.pop_front() {
            Some(x) => x,
            None => {
                proof {
                    assert(st.0.len() == 0);
                    assert(order.len() <= n);
                    lemma_kahn_run_done(start, adjs, order.len() as nat, n as nat);
                    assert(kahn_run(start, adjs, n as nat) == st);
                }
                break ;
            },
        };
        proof {
            lemma_kahn_step_base(st, n as nat, ps);
            lemma_kahn_run_succ(start, adjs, order.len() as nat);
            lemma_kahn_step_inv(st, n as nat, ps);
        }
        let ghost q0 = queue@;
        let ghost d0 = st.1;
        let ghost done = st.2.push(node);
        let ghost nbrs = targets_from(ps, node);
        let mut k: usize = 0;
        while k < adj[node].len()
            invariant
                adj.len() == n,
                forall|u: int| 0 <= u < n ==> #[trigger] adj[u]@ == targets_from(ps, u as usize),
                node < n,
                nbrs == adj[node as int]@,
                forall|i: int| 0 <= i < nbrs.len() ==> #[trigger] nbrs[i] < n,
                relax_inv(q0, d0, done, nbrs, n as nat, ps),
                k <= nbrs.len(),
                in_degree.len() == n,
                queue@ == relax(nbrs.take(k as int), q0, d0).0,
                degree_view(in_degree@) == relax(nbrs.take(k as int), q0, d0).1,
            decreases nbrs.len() - k,
        {
            let neighbor = adj[node][k];
            proof {
                lemma_relax_preserves(nbrs, k as int, q0, d0, done, n as nat, ps);
                lemma_occurrences_skip(nbrs, k as int, neighbor);
                lemma_relax_take(nbrs, k as int, q0, d0);
                assert(degree_view(in_degree@)[neighbor as int] == in_degree[neighbor as int] as int);
            }
            in_degree.set(neighbor, in_degree[neighbor] - 1);
            proof {
                assert(degree_view(in_degree@) =~= relax(nbrs.take(k as int), q0, d0).1.update(
                    neighbor as int,
                    relax(nbrs.take(k as int), q0, d0).1[neighbor as int] - 1,
                ));
            }
            if in_degree[neighbor] == 0 {
                queue.push_back(neighbor);
            }
            k += 1;
        }
        proof {
            assert(nbrs.take(nbrs.len() as int) =~= nbrs);
            assert(q0 == st.0.drop_first());
            assert(adjs[node as int] == nbrs);
        }
        let ghost old_len = order.len();
        order.push(node);
        proof {
            assert(kahn_run(start, adjs, (old_len + 1) as nat) == kahn_step(st, adjs));
            assert(order.len() == old_len + 1);
            assert(order@ == kahn_step(st, adjs).2);
        }
    }
    order
}

} // verus!
