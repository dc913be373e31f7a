//! The service area as an undirected weighted graph, and shortest-path
//! distances over it.

use std::collections::HashMap;
use vstd::prelude::*;

verus! {

broadcast use vstd::std_specs::hash::group_hash_axioms;

/// The distance reported when no route below it exists.
pub const UNREACHABLE: i32 = 2147483647;

/// A point of the service area, with its planar coordinates.
#[derive(Clone, Copy, Debug)]
pub struct Node {
    pub id: i32,
    pub x: i32,
    pub y: i32,
}

/// A road between two nodes. Inside a [`Graph`] it is stored once per
/// direction, in the adjacency list of `node_a_id`.
#[derive(Clone, Copy, Debug)]
pub struct Edge {
    pub node_a_id: i32,
    pub node_b_id: i32,
    pub weight: i32,
}

/// The same road taken in the other direction.
pub open spec fn reversed(e: Edge) -> Edge {
    Edge { node_a_id: e.node_b_id, node_b_id: e.node_a_id, weight: e.weight }
}

/// The edges that leave `u`, in insertion order.
pub open spec fn out_edges(adj: Map<i32, Seq<Edge>>, u: i32) -> Seq<Edge> {
    if adj.contains_key(u) {
        adj[u]
    } else {
        Seq::empty()
    }
}

/// The shape every graph built by [`Graph`]'s methods has: each edge is
/// listed under its source, has a non-negative weight, and its reverse is
/// listed under its target.
pub open spec fn well_formed_adjacency(adj: Map<i32, Seq<Edge>>) -> bool {
    forall|u: i32, i: int|
        0 <= i < out_edges(adj, u).len() ==> {
            let e = #[trigger] out_edges(adj, u)[i];
            &&& e.node_a_id == u
            &&& e.weight >= 0
            &&& out_edges(adj, e.node_b_id).contains(reversed(e))
        }
}

/// `adj` with `e` appended to the list of its source.
pub open spec fn push_edge(adj: Map<i32, Seq<Edge>>, e: Edge) -> Map<i32, Seq<Edge>> {
    adj.insert(e.node_a_id, out_edges(adj, e.node_a_id).push(e))
}

proof fn lemma_push_keeps(s: Seq<Edge>, x: Edge, y: Edge)
    requires
        s.contains(y),
    ensures
        s.push(x).contains(y),
{
    let k = choose|k: int| 0 <= k < s.len() && s[k] == y;
    assert(s.push(x)[k] == y);
}

proof fn lemma_out_push(adj: Map<i32, Seq<Edge>>, e: Edge, u: i32)
    ensures
        out_edges(push_edge(adj, e), u) == if u == e.node_a_id {
            out_edges(adj, u).push(e)
        } else {
            out_edges(adj, u)
        },
{
}

proof fn lemma_add_road_wf(adj: Map<i32, Seq<Edge>>, e: Edge)
    requires
        well_formed_adjacency(adj),
        e.weight >= 0,
    ensures
        well_formed_adjacency(push_edge(push_edge(adj, e), reversed(e))),
{
    let r = reversed(e);
    let adj1 = push_edge(adj, e);
    let adj2 = push_edge(adj1, r);
    assert forall|u: i32| #[trigger] out_edges(adj2, u) == if u == e.node_a_id && u == e.node_b_id {
        out_edges(adj, u).push(e).push(r)
    } else if u == e.node_a_id {
        out_edges(adj, u).push(e)
    } else if u == e.node_b_id {
        out_edges(adj, u).push(r)
    } else {
        out_edges(adj, u)
    } by {
        lemma_out_push(adj, e, u);
        lemma_out_push(adj1, r, u);
    }
    // every list of `adj` is a prefix of the same list in `adj2`
    assert forall|u: i32, y: Edge| out_edges(adj, u).contains(y) implies #[trigger] out_edges(
        adj2,
        u,
    ).contains(y) by {
        if u == e.node_a_id && u == e.node_b_id {
            lemma_push_keeps(out_edges(adj, u), e, y);
            lemma_push_keeps(out_edges(adj, u).push(e), r, y);
        } else if u == e.node_a_id {
            lemma_push_keeps(out_edges(adj, u), e, y);
        } else if u == e.node_b_id {
            lemma_push_keeps(out_edges(adj, u), r, y);
        }
    }
    assert(out_edges(adj2, e.node_b_id).contains(r)) by {
        let s = out_edges(adj2, e.node_b_id);
        assert(s[s.len() - 1] == r);
    }
    assert(out_edges(adj2, e.node_a_id).contains(e)) by {
        let s = out_edges(adj2, e.node_a_id);
        if e.node_a_id == e.node_b_id {
            assert(s[s.len() - 2] == e);
        } else {
            assert(s[s.len() - 1] == e);
        }
    }
    assert(reversed(r) == e);
    assert forall|u: i32, i: int| 0 <= i < out_edges(adj2, u).len() implies {
        let x = #[trigger] out_edges(adj2, u)[i];
        &&& x.node_a_id == u
        &&& x.weight >= 0
        &&& out_edges(adj2, x.node_b_id).contains(reversed(x))
    } by {
        let x = out_edges(adj2, u)[i];
        if i < out_edges(adj, u).len() {
            assert(x == out_edges(adj, u)[i]);
            assert(out_edges(adj, x.node_b_id).contains(reversed(x)));
        }
    }
}

/// The node reached after the first `i` steps of the walk `es` from `s`.
pub open spec fn walk_node(s: i32, es: Seq<Edge>, i: int) -> i32 {
    if i <= 0 {
        s
    } else {
        es[i - 1].node_b_id
    }
}

/// The node where the walk `es` from `s` ends.
pub open spec fn walk_end(s: i32, es: Seq<Edge>) -> i32 {
    walk_node(s, es, es.len() as int)
}

/// `es` is a walk from `s`: each step leaves the node the previous step
/// reached, along an edge listed there.
pub open spec fn is_walk(adj: Map<i32, Seq<Edge>>, s: i32, es: Seq<Edge>) -> bool {
    forall|i: int| 0 <= i < es.len() ==> out_edges(adj, walk_node(s, es, i)).contains(#[trigger] es[i])
}

/// The total weight of the edges of `es`.
pub open spec fn walk_weight(es: Seq<Edge>) -> int
    decreases es.len(),
{
    if es.len() == 0 {
        0
    } else {
        walk_weight(es.drop_last()) + es.last().weight
    }
}

/// `es` is a route from `a` to `b`.
pub open spec fn is_route(adj: Map<i32, Seq<Edge>>, a: i32, b: i32, es: Seq<Edge>) -> bool {
    is_walk(adj, a, es) && walk_end(a, es) == b
}

/// Some route from `a` to `b` weighs exactly `d`.
pub open spec fn reaches_with(adj: Map<i32, Seq<Edge>>, a: i32, b: i32, d: int) -> bool {
    exists|es: Seq<Edge>| #[trigger] is_route(adj, a, b, es) && walk_weight(es) == d
}

/// Every route from `a` to `b` weighs at least `d`.
pub open spec fn lower_bound(adj: Map<i32, Seq<Edge>>, a: i32, b: i32, d: int) -> bool {
    forall|es: Seq<Edge>| #[trigger] is_route(adj, a, b, es) ==> walk_weight(es) >= d
}

/// `d` is the least weight of a route from `a` to `b` when that is below
/// [`UNREACHABLE`], and [`UNREACHABLE`] otherwise (no route at all, or
/// none that light).
pub open spec fn is_capped_distance(adj: Map<i32, Seq<Edge>>, a: i32, b: i32, d: int) -> bool {
    &&& 0 <= d <= UNREACHABLE
    &&& d < UNREACHABLE ==> reaches_with(adj, a, b, d)
    &&& lower_bound(adj, a, b, d)
}

/// The shortest-path distance from `a` to `b`, capped at [`UNREACHABLE`].
pub open spec fn capped_distance(adj: Map<i32, Seq<Edge>>, a: i32, b: i32) -> int {
    choose|d: int| is_capped_distance(adj, a, b, d)
}

/// The distance between two ids of a graph with nodes `nodes` and
/// adjacency lists `adj`: [`UNREACHABLE`] when the ids differ and one of
/// them is not a node, else the capped distance over the roads.
pub open spec fn graph_distance(
    nodes: Map<i32, Node>,
    adj: Map<i32, Seq<Edge>>,
    a: i32,
    b: i32,
) -> int {
    if a != b && (!nodes.contains_key(a) || !nodes.contains_key(b)) {
        UNREACHABLE as int
    } else {
        capped_distance(adj, a, b)
    }
}

proof fn lemma_walk_push(adj: Map<i32, Seq<Edge>>, s: i32, es: Seq<Edge>, e: Edge)
    requires
        is_walk(adj, s, es),
        out_edges(adj, walk_end(s, es)).contains(e),
    ensures
        is_walk(adj, s, es.push(e)),
        walk_end(s, es.push(e)) == e.node_b_id,
        walk_weight(es.push(e)) == walk_weight(es) + e.weight,
{
    let es2 = es.push(e);
    assert(es2.drop_last() =~= es);
    assert forall|i: int| 0 <= i < es2.len() implies out_edges(adj, walk_node(s, es2, i)).contains(
        #[trigger] es2[i],
    ) by {
        if i < es.len() {
            assert(es2[i] == es[i]);
            assert(walk_node(s, es2, i) == walk_node(s, es, i));
        }
    }
}

proof fn lemma_walk_drop(adj: Map<i32, Seq<Edge>>, s: i32, es: Seq<Edge>)
    requires
        is_walk(adj, s, es),
        es.len() > 0,
    ensures
        is_walk(adj, s, es.drop_last()),
        out_edges(adj, walk_end(s, es.drop_last())).contains(es.last()),
        walk_end(s, es) == es.last().node_b_id,
        walk_weight(es) == walk_weight(es.drop_last()) + es.last().weight,
{
    let es1 = es.drop_last();
    assert forall|i: int| 0 <= i < es1.len() implies out_edges(adj, walk_node(s, es1, i)).contains(
        #[trigger] es1[i],
    ) by {
        assert(es1[i] == es[i]);
        assert(walk_node(s, es1, i) == walk_node(s, es, i));
    }
    assert(es[es.len() - 1] == es.last());
    assert(walk_node(s, es, es.len() - 1) == walk_end(s, es1));
}

proof fn lemma_listed_edge(adj: Map<i32, Seq<Edge>>, u: i32, e: Edge) -> (k: int)
    requires
        well_formed_adjacency(adj),
        out_edges(adj, u).contains(e),
    ensures
        0 <= k < out_edges(adj, u).len(),
        out_edges(adj, u)[k] == e,
        e.node_a_id == u,
        e.weight >= 0,
        adj.contains_key(e.node_b_id),
        out_edges(adj, e.node_b_id).contains(reversed(e)),
{
    let k = choose|k: int| 0 <= k < out_edges(adj, u).len() && out_edges(adj, u)[k] == e;
    let r = reversed(e);
    let j = choose|j: int|
        0 <= j < out_edges(adj, e.node_b_id).len() && out_edges(adj, e.node_b_id)[j] == r;
    k
}

proof fn lemma_walk_nonneg(adj: Map<i32, Seq<Edge>>, s: i32, es: Seq<Edge>)
    requires
        well_formed_adjacency(adj),
        is_walk(adj, s, es),
    ensures
        walk_weight(es) >= 0,
    decreases es.len(),
{
    if es.len() > 0 {
        lemma_walk_drop(adj, s, es);
        lemma_walk_nonneg(adj, s, es.drop_last());
        lemma_listed_edge(adj, walk_end(s, es.drop_last()), es.last());
    }
}

/// The capped distance is unique.
proof fn lemma_capped_unique(adj: Map<i32, Seq<Edge>>, a: i32, b: i32, d1: int, d2: int)
    requires
        is_capped_distance(adj, a, b, d1),
        is_capped_distance(adj, a, b, d2),
    ensures
        d1 == d2,
{
    if d1 < UNREACHABLE {
        let es = choose|es: Seq<Edge>| #[trigger] is_route(adj, a, b, es) && walk_weight(es) == d1;
        assert(walk_weight(es) >= d2);
    }
    if d2 < UNREACHABLE {
        let es = choose|es: Seq<Edge>| #[trigger] is_route(adj, a, b, es) && walk_weight(es) == d2;
        assert(walk_weight(es) >= d1);
    }
}

proof fn lemma_is_capped_distance(adj: Map<i32, Seq<Edge>>, a: i32, b: i32, d: int)
    requires
        is_capped_distance(adj, a, b, d),
    ensures
        capped_distance(adj, a, b) == d,
{
    lemma_capped_unique(adj, a, b, d, capped_distance(adj, a, b));
}

// The search state of `shortest_path`: tentative distances `dist`, the set
// `settled` of nodes whose distance is final, and the queue of entries
// (cost, node).

spec fn edge_relaxed(dist: Map<i32, i32>, u: i32, e: Edge) -> bool {
    ||| dist[u] + e.weight >= UNREACHABLE
    ||| dist.contains_key(e.node_b_id) && dist[e.node_b_id] <= dist[u] + e.weight
}

spec fn relaxed_upto(adj: Map<i32, Seq<Edge>>, dist: Map<i32, i32>, u: i32, k: int) -> bool {
    forall|j: int| 0 <= j < k ==> edge_relaxed(dist, u, #[trigger] out_edges(adj, u)[j])
}

spec fn settled_ok(
    adj: Map<i32, Seq<Edge>>,
    s: i32,
    dist: Map<i32, i32>,
    settled: Set<i32>,
) -> bool {
    forall|u: i32| #[trigger]
        settled.contains(u) ==> dist.contains_key(u) && lower_bound(adj, s, u, dist[u] as int)
}

spec fn all_relaxed(adj: Map<i32, Seq<Edge>>, dist: Map<i32, i32>, settled: Set<i32>) -> bool {
    forall|u: i32| #[trigger]
        settled.contains(u) ==> relaxed_upto(adj, dist, u, out_edges(adj, u).len() as int)
}

spec fn dist_sound(adj: Map<i32, Seq<Edge>>, s: i32, dist: Map<i32, i32>) -> bool {
    forall|v: i32| #[trigger]
        dist.contains_key(v) ==> {
            &&& 0 <= dist[v] < UNREACHABLE
            &&& reaches_with(adj, s, v, dist[v] as int)
            &&& adj.contains_key(v) || v == s
        }
}

spec fn queued(dist: Map<i32, i32>, settled: Set<i32>, queue: Seq<(i32, i32)>) -> bool {
    forall|v: i32| #[trigger]
        dist.contains_key(v) && !settled.contains(v) ==> queue.contains((dist[v], v))
}

spec fn queue_sound(dist: Map<i32, i32>, queue: Seq<(i32, i32)>) -> bool {
    forall|j: int|
        0 <= j < queue.len() ==> dist.contains_key((#[trigger] queue[j]).1) && queue[j].0 >= dist[queue[j].1]
}

/// What holds of the search state between two steps.
#[verifier::opaque]
spec fn search_inv(
    adj: Map<i32, Seq<Edge>>,
    s: i32,
    dist: Map<i32, i32>,
    settled: Set<i32>,
    queue: Seq<(i32, i32)>,
) -> bool {
    &&& well_formed_adjacency(adj)
    &&& dist.contains_key(s)
    &&& dist[s] == 0
    &&& dist_sound(adj, s, dist)
    &&& settled_ok(adj, s, dist, settled)
    &&& queued(dist, settled, queue)
    &&& queue_sound(dist, queue)
    &&& settled.subset_of(adj.dom().insert(s))
}

/// Every settled node but `p` has all its edges relaxed, and `p` its first `i`.
#[verifier::opaque]
spec fn relaxing(
    adj: Map<i32, Seq<Edge>>,
    dist: Map<i32, i32>,
    settled: Set<i32>,
    p: i32,
    i: int,
) -> bool {
    &&& forall|u: i32| #[trigger]
        settled.contains(u) && u != p ==> relaxed_upto(adj, dist, u, out_edges(adj, u).len() as int)
    &&& relaxed_upto(adj, dist, p, i)
}

#[verifier::opaque]
spec fn done_relaxing(adj: Map<i32, Seq<Edge>>, dist: Map<i32, i32>, settled: Set<i32>) -> bool {
    all_relaxed(adj, dist, settled)
}

/// `k` is an entry of least cost in `queue`.
spec fn least_entry(queue: Seq<(i32, i32)>, k: int) -> bool {
    &&& 0 <= k < queue.len()
    &&& forall|j: int| 0 <= j < queue.len() ==> queue[k].0 <= #[trigger] queue[j].0
}

/// A walk from the source that ends outside the settled set weighs at least
/// `c`, when `c` is at most every tentative distance outside that set.
proof fn lemma_unsettled_bound(
    adj: Map<i32, Seq<Edge>>,
    s: i32,
    dist: Map<i32, i32>,
    settled: Set<i32>,
    c: int,
    es: Seq<Edge>,
)
    requires
        well_formed_adjacency(adj),
        dist.contains_key(s),
        dist[s] == 0,
        settled_ok(adj, s, dist, settled),
        all_relaxed(adj, dist, settled),
        forall|x: i32| #[trigger] dist.contains_key(x) && !settled.contains(x) ==> c <= dist[x],
        c <= UNREACHABLE,
        is_walk(adj, s, es),
        !settled.contains(walk_end(s, es)),
    ensures
        walk_weight(es) >= c,
    decreases es.len(),
{
    if es.len() == 0 {
        assert(dist.contains_key(s) && !settled.contains(s));
    } else {
        let prev = es.drop_last();
        let e = es.last();
        lemma_walk_drop(adj, s, es);
        let u = walk_end(s, prev);
        let k = lemma_listed_edge(adj, u, e);
        if settled.contains(u) {
            assert(is_route(adj, s, u, prev));
            assert(walk_weight(prev) >= dist[u]);
            assert(relaxed_upto(adj, dist, u, out_edges(adj, u).len() as int));
            assert(edge_relaxed(dist, u, out_edges(adj, u)[k]));
            if dist[u] + e.weight < UNREACHABLE {
                assert(dist.contains_key(e.node_b_id) && !settled.contains(e.node_b_id));
            }
        } else {
            lemma_unsettled_bound(adj, s, dist, settled, c, prev);
        }
    }
}

/// The index of an entry of least cost, the lower node id first among
/// entries of equal cost.
fn min_entry_index(queue: &Vec<(i32, i32)>) -> (k: usize)
    requires
        queue.len() > 0,
    ensures
        k < queue.len(),
        forall|j: int| 0 <= j < queue.len() ==> queue[k as int].0 <= #[trigger] queue[j].0,
        forall|j: int|
            0 <= j < queue.len() && queue[j].0 == queue[k as int].0 ==> queue[k as int].1
                <= #[trigger] queue[j].1,
{
    let mut best: usize = 0;
    let mut i: usize = 1;
    while i < queue.len()
        invariant
            0 < i <= queue.len(),
            best < i,
            forall|j: int| 0 <= j < i ==> queue[best as int].0 <= #[trigger] queue[j].0,
            forall|j: int|
                0 <= j < i && queue[j].0 == queue[best as int].0 ==> queue[best as int].1
                    <= #[trigger] queue[j].1,
        decreases queue.len() - i,
    {
        if queue[i].0 < queue[best].0 || (queue[i].0 == queue[best].0 && queue[i].1 < queue[best].1) {
            best = i;
        }
        i = i + 1;
    }
    best
}

proof fn lemma_remove_keeps(q: Seq<(i32, i32)>, k: int, y: (i32, i32))
    requires
        0 <= k < q.len(),
        q.contains(y),
        q[k] != y,
    ensures
        q.remove(k).contains(y),
{
    let j = choose|j: int| 0 <= j < q.len() && q[j] == y;
    if j < k {
        assert(q.remove(k)[j] == y);
    } else {
        assert(q.remove(k)[j - 1] == y);
    }
}

proof fn lemma_push_keeps_entry(q: Seq<(i32, i32)>, x: (i32, i32), y: (i32, i32))
    requires
        q.contains(y),
    ensures
        q.push(x).contains(y),
{
    let j = choose|j: int| 0 <= j < q.len() && q[j] == y;
    assert(q.push(x)[j] == y);
}

proof fn lemma_relax_keeps(
    adj: Map<i32, Seq<Edge>>,
    dist: Map<i32, i32>,
    dist2: Map<i32, i32>,
    u: i32,
    k: int,
)
    requires
        relaxed_upto(adj, dist, u, k),
        dist.contains_key(u),
        dist2.contains_key(u),
        dist2[u] == dist[u],
        forall|x: i32| #[trigger]
            dist.contains_key(x) ==> dist2.contains_key(x) && dist2[x] <= dist[x],
    ensures
        relaxed_upto(adj, dist2, u, k),
{
    assert forall|j: int| 0 <= j < k implies edge_relaxed(
        dist2,
        u,
        #[trigger] out_edges(adj, u)[j],
    ) by {
        let e = out_edges(adj, u)[j];
        assert(edge_relaxed(dist, u, e));
        if dist.contains_key(e.node_b_id) {
            assert(dist2.contains_key(e.node_b_id));
        }
    }
}

proof fn lemma_search_start(adj: Map<i32, Seq<Edge>>, s: i32)
    requires
        well_formed_adjacency(adj),
    ensures
        search_inv(
            adj,
            s,
            Map::<i32, i32>::empty().insert(s, 0),
            Set::empty(),
            Seq::<(i32, i32)>::empty().push((0, s)),
        ),
        done_relaxing(adj, Map::<i32, i32>::empty().insert(s, 0), Set::empty()),
{
    reveal(search_inv);
    reveal(done_relaxing);
    let d = Map::<i32, i32>::empty().insert(s, 0);
    let q = Seq::<(i32, i32)>::empty().push((0, s));
    assert(is_route(adj, s, s, Seq::<Edge>::empty()));
    assert(walk_weight(Seq::<Edge>::empty()) == 0);
    assert(q[0] == (0i32, s));
    assert(queued(d, Set::empty(), q));
}

proof fn lemma_pop_entry(
    adj: Map<i32, Seq<Edge>>,
    s: i32,
    d: Map<i32, i32>,
    settled: Set<i32>,
    q: Seq<(i32, i32)>,
    k: int,
)
    requires
        search_inv(adj, s, d, settled, q),
        least_entry(q, k),
    ensures
        d.contains_key(q[k].1),
        q[k].0 >= d[q[k].1],
        forall|x: i32| #[trigger] d.contains_key(x) && !settled.contains(x) ==> q[k].0 <= d[x],
{
    reveal(search_inv);
    assert forall|x: i32| #[trigger] d.contains_key(x) && !settled.contains(x) implies q[k].0
        <= d[x] by {
        assert(q.contains((d[x], x)));
        let j = choose|j: int| 0 <= j < q.len() && q[j] == (d[x], x);
        assert(q[k].0 <= q[j].0);
    }
}

proof fn lemma_queue_remove(d: Map<i32, i32>, q: Seq<(i32, i32)>, k: int)
    requires
        queue_sound(d, q),
        0 <= k < q.len(),
    ensures
        queue_sound(d, q.remove(k)),
{
    let q1 = q.remove(k);
    assert forall|j: int| 0 <= j < q1.len() implies d.contains_key((#[trigger] q1[j]).1) && q1[j].0
        >= d[q1[j].1] by {
        if j < k {
            assert(q1[j] == q[j]);
        } else {
            assert(q1[j] == q[j + 1]);
        }
    }
}

/// The target popped at its tentative distance: that distance is final.
proof fn lemma_pop_target(
    adj: Map<i32, Seq<Edge>>,
    s: i32,
    d: Map<i32, i32>,
    settled: Set<i32>,
    q: Seq<(i32, i32)>,
    k: int,
)
    requires
        search_inv(adj, s, d, settled, q),
        done_relaxing(adj, d, settled),
        least_entry(q, k),
        !settled.contains(q[k].1),
    ensures
        is_capped_distance(adj, s, q[k].1, q[k].0 as int),
{
    lemma_pop_entry(adj, s, d, settled, q, k);
    reveal(search_inv);
    reveal(done_relaxing);
    let (cost, t) = q[k];
    assert(cost <= d[t]);
    assert forall|es: Seq<Edge>| #[trigger] is_route(adj, s, t, es) implies walk_weight(es)
        >= cost by {
        lemma_unsettled_bound(adj, s, d, settled, cost as int, es);
    }
}

/// An entry older than its node's tentative distance is dropped.
proof fn lemma_pop_stale(
    adj: Map<i32, Seq<Edge>>,
    s: i32,
    d: Map<i32, i32>,
    settled: Set<i32>,
    q: Seq<(i32, i32)>,
    k: int,
)
    requires
        search_inv(adj, s, d, settled, q),
        0 <= k < q.len(),
        d.contains_key(q[k].1),
        q[k].0 > d[q[k].1],
    ensures
        search_inv(adj, s, d, settled, q.remove(k)),
{
    reveal(search_inv);
    lemma_queue_remove(d, q, k);
    assert forall|x: i32| #[trigger] d.contains_key(x) && !settled.contains(x) implies q.remove(
        k,
    ).contains((d[x], x)) by {
        lemma_remove_keeps(q, k, (d[x], x));
    }
}

/// The node popped at its tentative distance is settled.
proof fn lemma_pop_settle(
    adj: Map<i32, Seq<Edge>>,
    s: i32,
    d: Map<i32, i32>,
    settled: Set<i32>,
    q: Seq<(i32, i32)>,
    k: int,
)
    requires
        search_inv(adj, s, d, settled, q),
        done_relaxing(adj, d, settled),
        least_entry(q, k),
        d.contains_key(q[k].1),
        q[k].0 == d[q[k].1],
        adj.dom().finite(),
    ensures
        search_inv(adj, s, d, settled.insert(q[k].1), q.remove(k)),
        relaxing(adj, d, settled.insert(q[k].1), q[k].1, 0),
        settled.contains(q[k].1) ==> relaxing(
            adj,
            d,
            settled.insert(q[k].1),
            q[k].1,
            out_edges(adj, q[k].1).len() as int,
        ),
        settled.insert(q[k].1).finite(),
        settled.insert(q[k].1).len() <= adj.dom().insert(s).len(),
{
    lemma_pop_entry(adj, s, d, settled, q, k);
    reveal(search_inv);
    reveal(relaxing);
    reveal(done_relaxing);
    let (cost, p) = q[k];
    let s1 = settled.insert(p);
    if !settled.contains(p) {
        assert forall|es: Seq<Edge>| #[trigger] is_route(adj, s, p, es) implies walk_weight(es)
            >= cost by {
            lemma_unsettled_bound(adj, s, d, settled, cost as int, es);
        }
    }
    lemma_queue_remove(d, q, k);
    assert forall|x: i32| #[trigger] d.contains_key(x) && !s1.contains(x) implies q.remove(
        k,
    ).contains((d[x], x)) by {
        lemma_remove_keeps(q, k, (d[x], x));
    }
    assert(settled_ok(adj, s, d, s1));
    assert(d.contains_key(p));
    assert(s1.subset_of(adj.dom().insert(s)));
    vstd::set_lib::lemma_len_subset(s1, adj.dom().insert(s));
    assert(relaxed_upto(adj, d, p, 0));
    if settled.contains(p) {
        assert(relaxed_upto(adj, d, p, out_edges(adj, p).len() as int));
    }
}

/// The queue ran empty before the target was settled: no route reaches it
/// below the cap.
proof fn lemma_exhausted(
    adj: Map<i32, Seq<Edge>>,
    s: i32,
    d: Map<i32, i32>,
    settled: Set<i32>,
    q: Seq<(i32, i32)>,
    t: i32,
)
    requires
        search_inv(adj, s, d, settled, q),
        done_relaxing(adj, d, settled),
        q.len() == 0,
        !settled.contains(t),
    ensures
        is_capped_distance(adj, s, t, UNREACHABLE as int),
{
    reveal(search_inv);
    reveal(done_relaxing);
    assert forall|es: Seq<Edge>| #[trigger] is_route(adj, s, t, es) implies walk_weight(es)
        >= UNREACHABLE by {
        assert forall|x: i32| #[trigger] d.contains_key(x) && !settled.contains(x) implies UNREACHABLE
            <= d[x] by {
            assert(q.contains((d[x], x)));
        }
        lemma_unsettled_bound(adj, s, d, settled, UNREACHABLE as int, es);
    }
}

/// An edge that gives nothing better is relaxed as it stands.
proof fn lemma_relax_skip(
    adj: Map<i32, Seq<Edge>>,
    d: Map<i32, i32>,
    settled: Set<i32>,
    p: i32,
    i: int,
)
    requires
        relaxing(adj, d, settled, p, i),
        0 <= i < out_edges(adj, p).len(),
        edge_relaxed(d, p, out_edges(adj, p)[i]),
    ensures
        relaxing(adj, d, settled, p, i + 1),
{
    reveal(relaxing);
}

proof fn lemma_relax_done(adj: Map<i32, Seq<Edge>>, d: Map<i32, i32>, settled: Set<i32>, p: i32)
    requires
        relaxing(adj, d, settled, p, out_edges(adj, p).len() as int),
        settled.contains(p),
    ensures
        done_relaxing(adj, d, settled),
{
    reveal(relaxing);
    reveal(done_relaxing);
}

/// An edge that gives its target a shorter distance: the target takes it
/// and is queued with it.
proof fn lemma_relax_better(
    adj: Map<i32, Seq<Edge>>,
    s: i32,
    d: Map<i32, i32>,
    settled: Set<i32>,
    q: Seq<(i32, i32)>,
    p: i32,
    i: int,
    nc: int,
    was_settled: bool,
)
    requires
        search_inv(adj, s, d, settled, q),
        relaxing(adj, d, settled, p, i),
        settled.contains(p),
        d.contains_key(p),
        0 <= i < out_edges(adj, p).len(),
        nc == d[p] + out_edges(adj, p)[i].weight,
        nc < UNREACHABLE,
        !d.contains_key(out_edges(adj, p)[i].node_b_id) || nc < d[out_edges(adj, p)[i].node_b_id],
        was_settled ==> relaxing(adj, d, settled, p, out_edges(adj, p).len() as int),
    ensures
        !was_settled,
        out_edges(adj, p)[i].node_b_id != p,
        search_inv(
            adj,
            s,
            d.insert(out_edges(adj, p)[i].node_b_id, nc as i32),
            settled,
            q.push((nc as i32, out_edges(adj, p)[i].node_b_id)),
        ),
        relaxing(adj, d.insert(out_edges(adj, p)[i].node_b_id, nc as i32), settled, p, i + 1),
{
    reveal(search_inv);
    reveal(relaxing);
    let edge = out_edges(adj, p)[i];
    let v = edge.node_b_id;
    let nci = nc as i32;
    let d1 = d.insert(v, nci);
    let q1 = q.push((nci, v));
    assert(out_edges(adj, p).contains(edge));
    lemma_listed_edge(adj, p, edge);
    let es = choose|es: Seq<Edge>| #[trigger] is_route(adj, s, p, es) && walk_weight(es) == d[p];
    lemma_walk_push(adj, s, es, edge);
    assert(is_route(adj, s, v, es.push(edge)));
    if settled.contains(v) {
        assert(walk_weight(es.push(edge)) >= d[v]);
    }
    if was_settled {
        assert(edge_relaxed(d, p, out_edges(adj, p)[i]));
    }
    assert(v != p);
    assert forall|x: i32| #[trigger] d1.contains_key(x) implies {
        &&& 0 <= d1[x] < UNREACHABLE
        &&& reaches_with(adj, s, x, d1[x] as int)
        &&& adj.contains_key(x) || x == s
    } by {
        if x != v {
            assert(d.contains_key(x));
        }
    }
    assert forall|u: i32| #[trigger] settled.contains(u) implies d1.contains_key(u) && lower_bound(
        adj,
        s,
        u,
        d1[u] as int,
    ) by {
        assert(d.contains_key(u));
    }
    assert forall|x: i32| #[trigger] d.contains_key(x) implies d1.contains_key(x) && d1[x]
        <= d[x] by {}
    assert forall|u: i32| #[trigger] settled.contains(u) && u != p implies relaxed_upto(
        adj,
        d1,
        u,
        out_edges(adj, u).len() as int,
    ) by {
        lemma_relax_keeps(adj, d, d1, u, out_edges(adj, u).len() as int);
    }
    lemma_relax_keeps(adj, d, d1, p, i);
    assert forall|j: int| 0 <= j < i + 1 implies edge_relaxed(
        d1,
        p,
        #[trigger] out_edges(adj, p)[j],
    ) by {
        if j < i {
            assert(relaxed_upto(adj, d1, p, i));
        }
    }
    assert(q1[q1.len() - 1] == (nci, v));
    assert forall|x: i32| #[trigger] d1.contains_key(x) && !settled.contains(x) implies q1.contains(
        (d1[x], x),
    ) by {
        if x != v {
            assert(d.contains_key(x));
            assert(q.contains((d[x], x)));
            lemma_push_keeps_entry(q, (nci, v), (d[x], x));
        }
    }
    assert forall|j: int| 0 <= j < q1.len() implies d1.contains_key((#[trigger] q1[j]).1) && q1[j].0
        >= d1[q1[j].1] by {
        if j < q.len() {
            assert(q1[j] == q[j]);
        }
    }
}

/// The walk `es` taken backwards, each edge reversed.
pub open spec fn reverse_walk(es: Seq<Edge>) -> Seq<Edge> {
    Seq::new(es.len(), |i: int| reversed(es[es.len() - 1 - i]))
}

proof fn lemma_weight_front(es: Seq<Edge>)
    requires
        es.len() > 0,
    ensures
        walk_weight(es) == es[0].weight + walk_weight(es.subrange(1, es.len() as int)),
    decreases es.len(),
{
    let rest = es.subrange(1, es.len() as int);
    if es.len() == 1 {
        assert(es.drop_last().len() == 0);
        assert(rest.len() == 0);
        assert(es.last() == es[0]);
        assert(walk_weight(es) == walk_weight(es.drop_last()) + es.last().weight);
    } else {
        lemma_weight_front(es.drop_last());
        assert(rest.drop_last() =~= es.drop_last().subrange(1, es.len() - 1));
        assert(rest.last() == es.last());
        assert(es.drop_last()[0] == es[0]);
        assert(walk_weight(rest) == walk_weight(rest.drop_last()) + rest.last().weight);
    }
}

proof fn lemma_reverse_weight(es: Seq<Edge>)
    ensures
        walk_weight(reverse_walk(es)) == walk_weight(es),
    decreases es.len(),
{
    if es.len() > 0 {
        let rest = es.subrange(1, es.len() as int);
        lemma_reverse_weight(rest);
        lemma_weight_front(es);
        assert(reverse_walk(es).drop_last() =~= reverse_walk(rest));
        assert(reverse_walk(es).last() == reversed(es[0]));
    }
}

proof fn lemma_reverse_route(adj: Map<i32, Seq<Edge>>, a: i32, b: i32, es: Seq<Edge>)
    requires
        well_formed_adjacency(adj),
        is_route(adj, a, b, es),
    ensures
        is_route(adj, b, a, reverse_walk(es)),
        walk_weight(reverse_walk(es)) == walk_weight(es),
{
    let n = es.len() as int;
    let rev = reverse_walk(es);
    lemma_reverse_weight(es);
    assert forall|i: int| 0 <= i < rev.len() implies out_edges(adj, walk_node(b, rev, i)).contains(
        #[trigger] rev[i],
    ) by {
        let j = n - 1 - i;
        assert(out_edges(adj, walk_node(a, es, j)).contains(es[j]));
        lemma_listed_edge(adj, walk_node(a, es, j), es[j]);
        if i > 0 {
            assert(out_edges(adj, walk_node(a, es, n - i)).contains(es[n - i]));
            lemma_listed_edge(adj, walk_node(a, es, n - i), es[n - i]);
        }
    }
    if n > 0 {
        assert(out_edges(adj, walk_node(a, es, 0)).contains(es[0]));
        lemma_listed_edge(adj, walk_node(a, es, 0), es[0]);
    }
}

/// Either some `d <= k` is the least route weight, or every route weighs
/// more than `k`.
proof fn lemma_least_below(adj: Map<i32, Seq<Edge>>, a: i32, b: i32, k: int)
    requires
        well_formed_adjacency(adj),
        k >= -1,
    ensures
        (exists|d: int|
            0 <= d <= k && #[trigger] reaches_with(adj, a, b, d) && lower_bound(adj, a, b, d))
            || lower_bound(adj, a, b, k + 1),
    decreases k + 1,
{
    if k == -1 {
        assert forall|es: Seq<Edge>| #[trigger] is_route(adj, a, b, es) implies walk_weight(es)
            >= 0 by {
            lemma_walk_nonneg(adj, a, es);
        }
    } else {
        lemma_least_below(adj, a, b, k - 1);
        if !(exists|d: int|
            0 <= d <= k - 1 && #[trigger] reaches_with(adj, a, b, d) && lower_bound(
                adj,
                a,
                b,
                d,
            )) {
            if reaches_with(adj, a, b, k) {
                assert(0 <= k <= k && reaches_with(adj, a, b, k) && lower_bound(adj, a, b, k));
            } else {
                assert forall|es: Seq<Edge>| #[trigger] is_route(adj, a, b, es) implies walk_weight(
                    es,
                ) >= k + 1 by {
                    if walk_weight(es) == k {
                        assert(reaches_with(adj, a, b, k));
                    }
                }
            }
        }
    }
}

/// Every pair of nodes has a capped distance.
proof fn lemma_capped_exists(adj: Map<i32, Seq<Edge>>, a: i32, b: i32)
    requires
        well_formed_adjacency(adj),
    ensures
        is_capped_distance(adj, a, b, capped_distance(adj, a, b)),
{
    lemma_least_below(adj, a, b, UNREACHABLE - 1);
    if exists|d: int|
        0 <= d <= UNREACHABLE - 1 && #[trigger] reaches_with(adj, a, b, d) && lower_bound(
            adj,
            a,
            b,
            d,
        ) {
        let d = choose|d: int|
            0 <= d <= UNREACHABLE - 1 && #[trigger] reaches_with(adj, a, b, d) && lower_bound(
                adj,
                a,
                b,
                d,
            );
        assert(is_capped_distance(adj, a, b, d));
    } else {
        assert(is_capped_distance(adj, a, b, UNREACHABLE as int));
    }
}

/// Distances are symmetric: the road network is undirected, so the
/// shortest route from `a` to `b` is as long as the one from `b` to `a`.
pub proof fn lemma_distance_symmetric(g: Graph, a: i32, b: i32)
    requires
        g.wf(),
    ensures
        capped_distance(g.adjacency(), a, b) == capped_distance(g.adjacency(), b, a),
        g.distance(a, b) == g.distance(b, a),
{
    let adj = g.adjacency();
    lemma_capped_exists(adj, a, b);
    let d = capped_distance(adj, a, b);
    assert forall|es: Seq<Edge>| #[trigger] is_route(adj, b, a, es) implies walk_weight(es)
        >= d by {
        lemma_reverse_route(adj, b, a, es);
        assert(is_route(adj, a, b, reverse_walk(es)));
    }
    if d < UNREACHABLE {
        let es = choose|es: Seq<Edge>| #[trigger] is_route(adj, a, b, es) && walk_weight(es) == d;
        lemma_reverse_route(adj, a, b, es);
        assert(is_route(adj, b, a, reverse_walk(es)));
    }
    lemma_is_capped_distance(adj, b, a, d);
}

/// The distance from a node to itself is zero.
pub proof fn lemma_distance_to_self(g: Graph, a: i32)
    requires
        g.wf(),
    ensures
        capped_distance(g.adjacency(), a, a) == 0,
        g.distance(a, a) == 0,
{
    let adj = g.adjacency();
    assert(is_route(adj, a, a, Seq::<Edge>::empty()));
    assert(walk_weight(Seq::<Edge>::empty()) == 0);
    assert forall|es: Seq<Edge>| #[trigger] is_route(adj, a, a, es) implies walk_weight(es)
        >= 0 by {
        lemma_walk_nonneg(adj, a, es);
    }
    lemma_is_capped_distance(adj, a, a, 0);
}

/// Without any route from `a` to `b`, the distance is [`UNREACHABLE`].
pub proof fn lemma_no_route_unreachable(g: Graph, a: i32, b: i32)
    requires
        g.wf(),
        forall|es: Seq<Edge>| !#[trigger] is_route(g.adjacency(), a, b, es),
    ensures
        capped_distance(g.adjacency(), a, b) == UNREACHABLE,
        g.distance(a, b) == UNREACHABLE,
{
    lemma_is_capped_distance(g.adjacency(), a, b, UNREACHABLE as int);
}

/// The adjacency lists made by adding the roads `edges` in order to an
/// empty graph.
pub open spec fn adjacency_of(edges: Seq<Edge>) -> Map<i32, Seq<Edge>>
    decreases edges.len(),
{
    if edges.len() == 0 {
        Map::empty()
    } else {
        push_edge(push_edge(adjacency_of(edges.drop_last()), edges.last()), reversed(edges.last()))
    }
}

/// The node map made by adding `nodes` in order to an empty graph.
pub open spec fn node_map_of(nodes: Seq<Node>) -> Map<i32, Node>
    decreases nodes.len(),
{
    if nodes.len() == 0 {
        Map::empty()
    } else {
        node_map_of(nodes.drop_last()).insert(nodes.last().id, nodes.last())
    }
}

/// An in-memory weighted undirected graph: nodes by id, and for each node
/// the ordered list of edges that leave it.
#[derive(Debug)]
pub struct Graph {
    nodes: HashMap<i32, Node>,
    edges: HashMap<i32, Vec<Edge>>,
}

impl Graph {
    /// The nodes, by id.
    pub closed spec fn node_map(&self) -> Map<i32, Node> {
        self.nodes@
    }

    /// The adjacency lists, by node id.
    pub closed spec fn adjacency(&self) -> Map<i32, Seq<Edge>> {
        self.edges@.map_values(|v: Vec<Edge>| v@)
    }

    /// The distance [`Graph::shortest_path`] reports.
    pub open spec fn distance(&self, a: i32, b: i32) -> int {
        graph_distance(self.node_map(), self.adjacency(), a, b)
    }

    pub open spec fn wf(&self) -> bool {
        well_formed_adjacency(self.adjacency())
    }

    /// An empty graph.
    pub fn new() -> (g: Graph)
        ensures
            g.wf(),
            g.node_map() == Map::<i32, Node>::empty(),
            g.adjacency() == Map::<i32, Seq<Edge>>::empty(),
    {
        let g = Graph { nodes: HashMap::new(), edges: HashMap::new() };
        assert(g.adjacency() =~= Map::<i32, Seq<Edge>>::empty());
        g
    }

    /// The graph of `nodes` and of the roads `edges`, added in order.
    pub fn build(nodes: &Vec<Node>, edges: &Vec<Edge>) -> (g: Graph)
        requires
            forall|i: int| 0 <= i < edges.len() ==> #[trigger] edges[i].weight >= 0,
        ensures
            g.wf(),
            g.node_map() == node_map_of(nodes@),
            g.adjacency() == adjacency_of(edges@),
    {
        let mut g = Graph::new();
        let mut i: usize = 0;
        while i < nodes.len()
            invariant
                i <= nodes.len(),
                g.wf(),
                g.node_map() == node_map_of(nodes@.subrange(0, i as int)),
                g.adjacency() == Map::<i32, Seq<Edge>>::empty(),
            decreases nodes.len() - i,
        {
            proof {
                assert(nodes@.subrange(0, i + 1).drop_last() =~= nodes@.subrange(0, i as int));
            }
            g.add_node(nodes[i]);
            i = i + 1;
        }
        assert(nodes@.subrange(0, nodes.len() as int) =~= nodes@);
        let mut j: usize = 0;
        while j < edges.len()
            invariant
                j <= edges.len(),
                forall|i: int| 0 <= i < edges.len() ==> #[trigger] edges[i].weight >= 0,
                g.wf(),
                g.node_map() == node_map_of(nodes@),
                g.adjacency() == adjacency_of(edges@.subrange(0, j as int)),
            decreases edges.len() - j,
        {
            proof {
                assert(edges@.subrange(0, j + 1).drop_last() =~= edges@.subrange(0, j as int));
            }
            g.add_edge(edges[j]);
            j = j + 1;
        }
        assert(edges@.subrange(0, edges.len() as int) =~= edges@);
        g
    }

    /// Inserts `node`, replacing any node with the same id.
    pub fn add_node(&mut self, node: Node)
        ensures
            final(self).node_map() == old(self).node_map().insert(node.id, node),
            final(self).adjacency() == old(self).adjacency(),
    {
        self.nodes.insert(node.id, node);
    }

    /// Appends `e` to the list of `e.node_a_id`.
    fn push_outgoing(&mut self, e: Edge)
        ensures
            final(self).node_map() == old(self).node_map(),
            final(self).adjacency() == push_edge(old(self).adjacency(), e),
    {
        let mut list = match self.edges.remove(&e.node_a_id) {
            Some(v) => v,
            None => Vec::new(),
        };
        proof {
            assert(list@ == out_edges(old(self).adjacency(), e.node_a_id));
        }
        list.push(e);
        self.edges.insert(e.node_a_id, list);
        proof {
            assert(self.adjacency() =~= push_edge(old(self).adjacency(), e));
        }
    }

    /// Adds a road: `edge` to the list of `edge.node_a_id` and its reverse
    /// to the list of `edge.node_b_id`. Self-loops and repeated roads are
    /// kept as given.
    pub fn add_edge(&mut self, edge: Edge)
        requires
            old(self).wf(),
            edge.weight >= 0,
        ensures
            final(self).wf(),
            final(self).node_map() == old(self).node_map(),
            final(self).adjacency() == push_edge(
                push_edge(old(self).adjacency(), edge),
                reversed(edge),
            ),
    {
        self.push_outgoing(edge);
        let reverse_edge = Edge {
            node_a_id: edge.node_b_id,
            node_b_id: edge.node_a_id,
            weight: edge.weight,
        };
        self.push_outgoing(reverse_edge);
        proof {
            lemma_add_road_wf(old(self).adjacency(), edge);
        }
    }

    /// Relaxes each edge that leaves `position`, whose distance `cost` is
    /// final: a neighbour whose tentative distance improves gets it, and is
    /// queued again with it.
    fn relax_edges(
        &self,
        position: i32,
        cost: i32,
        distances: &mut HashMap<i32, i32>,
        queue: &mut Vec<(i32, i32)>,
        Ghost(s): Ghost<i32>,
        Ghost(settled): Ghost<Set<i32>>,
        Ghost(was_settled): Ghost<bool>,
    )
        requires
            search_inv(self.adjacency(), s, old(distances)@, settled, old(queue)@),
            relaxing(self.adjacency(), old(distances)@, settled, position, 0),
            settled.contains(position),
            old(distances)@.contains_key(position),
            old(distances)@[position] == cost,
            was_settled ==> relaxing(
                self.adjacency(),
                old(distances)@,
                settled,
                position,
                out_edges(self.adjacency(), position).len() as int,
            ),
        ensures
            search_inv(self.adjacency(), s, final(distances)@, settled, final(queue)@),
            done_relaxing(self.adjacency(), final(distances)@, settled),
            was_settled ==> final(queue)@.len() == old(queue)@.len(),
    {
        let ghost adj = self.adjacency();
        let ghost len0 = queue@.len();
        match self.edges.get(&position) {
            None => {
                assert(out_edges(adj, position).len() == 0);
                proof {
                    lemma_relax_done(adj, distances@, settled, position);
                }
            },
            Some(list) => {
                assert(list@ == out_edges(adj, position));
                let mut i: usize = 0;
                while i < list.len()
                    invariant
                        adj == self.adjacency(),
                        list@ == out_edges(adj, position),
                        i <= list.len(),
                        settled.contains(position),
                        distances@.contains_key(position),
                        distances@[position] == cost,
                        search_inv(adj, s, distances@, settled, queue@),
                        relaxing(adj, distances@, settled, position, i as int),
                        was_settled ==> relaxing(
                            adj,
                            distances@,
                            settled,
                            position,
                            out_edges(adj, position).len() as int,
                        ),
                        was_settled ==> queue@.len() == len0,
                    decreases list.len() - i,
                {
                    let edge = list[i];
                    assert(out_edges(adj, position)[i as int] == edge);
                    let next_cost: i64 = cost as i64 + edge.weight as i64;
                    let better = next_cost < UNREACHABLE as i64 && match distances.get(
                        &edge.node_b_id,
                    ) {
                        Some(d) => next_cost < *d as i64,
                        None => true,
                    };
                    if better {
                        proof {
                            lemma_relax_better(
                                adj,
                                s,
                                distances@,
                                settled,
                                queue@,
                                position,
                                i as int,
                                next_cost as int,
                                was_settled,
                            );
                        }
                        queue.push((next_cost as i32, edge.node_b_id));
                        distances.insert(edge.node_b_id, next_cost as i32);
                    } else {
                        proof {
                            lemma_relax_skip(adj, distances@, settled, position, i as int);
                        }
                    }
                    i = i + 1;
                }
                proof {
                    lemma_relax_done(adj, distances@, settled, position);
                }
            },
        }
    }

    /// The length of a shortest route from `from_node_id` to
    /// `to_node_id`: 0 when they are the same id; [`UNREACHABLE`] when
    /// either id is not a node of the graph, when no route joins them, or
    /// when none is shorter than [`UNREACHABLE`].
    pub fn shortest_path(&self, from_node_id: i32, to_node_id: i32) -> (r: i32)
        requires
            self.wf(),
        ensures
            r as int == self.distance(from_node_id, to_node_id),
            from_node_id != to_node_id && (!self.node_map().contains_key(from_node_id)
                || !self.node_map().contains_key(to_node_id)) ==> r == UNREACHABLE,
            !(from_node_id != to_node_id && (!self.node_map().contains_key(from_node_id)
                || !self.node_map().contains_key(to_node_id))) ==> is_capped_distance(
                self.adjacency(),
                from_node_id,
                to_node_id,
                r as int,
            ),
    {
        if from_node_id != to_node_id && (!self.nodes.contains_key(&from_node_id)
            || !self.nodes.contains_key(&to_node_id)) {
            return UNREACHABLE;
        }
        self.search(from_node_id, to_node_id)
    }

    /// The capped distance over the roads alone: Dijkstra's search,
    /// settling nodes in order of distance (lower id first on equal
    /// distances) and stopping as soon as the target is settled.
    fn search(&self, from_node_id: i32, to_node_id: i32) -> (r: i32)
        requires
            self.wf(),
        ensures
            r as int == capped_distance(self.adjacency(), from_node_id, to_node_id),
            is_capped_distance(self.adjacency(), from_node_id, to_node_id, r as int),
    {
        let ghost adj = self.adjacency();
        let ghost s = from_node_id;
        let ghost universe = adj.dom().insert(from_node_id);
        let mut distances: HashMap<i32, i32> = HashMap::new();
        let mut queue: Vec<(i32, i32)> = Vec::new();
        let ghost mut settled: Set<i32> = Set::empty();
        distances.insert(from_node_id, 0);
        queue.push((0, from_node_id));
        proof {
            assert(adj.dom() == self.edges@.dom());
            assert(distances@ == Map::<i32, i32>::empty().insert(s, 0));
            assert(queue@ == Seq::<(i32, i32)>::empty().push((0, s)));
            lemma_search_start(adj, s);
        }
        while queue.len() > 0
            invariant
                adj == self.adjacency(),
                s == from_node_id,
                universe == adj.dom().insert(s),
                adj.dom().finite(),
                universe.finite(),
                settled.finite(),
                settled.len() <= universe.len(),
                search_inv(adj, s, distances@, settled, queue@),
                done_relaxing(adj, distances@, settled),
                !settled.contains(to_node_id),
            decreases universe.len() - settled.len(), queue.len(),
        {
            let k = min_entry_index(&queue);
            let ghost q0 = queue@;
            let ghost d0 = distances@;
            proof {
                lemma_pop_entry(adj, s, d0, settled, q0, k as int);
            }
            let (cost, position) = queue.remove(k);
            assert(q0[k as int] == (cost, position));
            if position == to_node_id {
                proof {
                    lemma_pop_target(adj, s, d0, settled, q0, k as int);
                    lemma_is_capped_distance(adj, s, to_node_id, cost as int);
                }
                return cost;
            }
            let known: i32 = match distances.get(&position) {
                Some(d) => *d,
                None => UNREACHABLE,
            };
            if cost > known {
                proof {
                    lemma_pop_stale(adj, s, d0, settled, q0, k as int);
                }
                continue;
            }
            let ghost was_settled = settled.contains(position);
            proof {
                lemma_pop_settle(adj, s, d0, settled, q0, k as int);
                settled = settled.insert(position);
            }
            self.relax_edges(
                position,
                cost,
                &mut distances,
                &mut queue,
                Ghost(s),
                Ghost(settled),
                Ghost(was_settled),
            );
        }
        proof {
            lemma_exhausted(adj, s, distances@, settled, queue@, to_node_id);
            lemma_is_capped_distance(adj, s, to_node_id, UNREACHABLE as int);
        }
        UNREACHABLE
    }
}

} // verus!
