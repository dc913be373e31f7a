//! The choice of the nearest available tow truck for an order.

use crate::dto::{reports_truck, TowTruckDto};
use crate::graph::{
    adjacency_of, graph_distance, is_route, lemma_no_route_unreachable, node_map_of, Edge, Graph,
    Node, UNREACHABLE,
};
use crate::models::TowTruck;
use vstd::prelude::*;

verus! {

/// Beyond this distance a truck is no usable match.
pub const ADMISSIBLE_DISTANCE: i32 = 10000000;

/// Candidate `a` ranks before candidate `b`, each a pair (distance,
/// truck id): it is nearer, or as near with a lower truck id.
pub open spec fn ranks_before(a: (i32, i32), b: (i32, i32)) -> bool {
    a.0 < b.0 || (a.0 == b.0 && a.1 < b.1)
}

/// `r` is the choice among `candidates`: the first of those ranked best,
/// when its distance is admissible; none when no candidate's is.
pub open spec fn is_nearest_choice(candidates: Seq<(i32, i32)>, r: Option<usize>) -> bool {
    match r {
        None => forall|i: int|
            0 <= i < candidates.len() ==> #[trigger] candidates[i].0 > ADMISSIBLE_DISTANCE,
        Some(k) => {
            &&& k < candidates.len()
            &&& candidates[k as int].0 <= ADMISSIBLE_DISTANCE
            &&& forall|i: int|
                0 <= i < candidates.len() ==> !ranks_before(
                    #[trigger] candidates[i],
                    candidates[k as int],
                )
            &&& forall|i: int| 0 <= i < k ==> ranks_before(candidates[k as int], #[trigger] candidates[i])
        },
    }
}

/// The pair (distance to `order_node_id`, truck id) of each truck, over
/// the graph of `nodes` and `adj`.
pub open spec fn candidate_keys(
    nodes: Map<i32, Node>,
    adj: Map<i32, Seq<Edge>>,
    trucks: Seq<TowTruck>,
    order_node_id: i32,
) -> Seq<(i32, i32)> {
    Seq::new(
        trucks.len(),
        |i: int|
            (graph_distance(nodes, adj, trucks[i].node_id, order_node_id) as i32, trucks[i].id),
    )
}

/// Ranks the candidates (distance, truck id) and returns the index of the
/// best one, or none when even the best lies beyond
/// [`ADMISSIBLE_DISTANCE`] (an empty list included).
pub fn pick_nearest(candidates: &Vec<(i32, i32)>) -> (r: Option<usize>)
    ensures
        is_nearest_choice(candidates@, r),
{
    if candidates.len() == 0 {
        return None;
    }
    let mut best: usize = 0;
    let mut i: usize = 1;
    while i < candidates.len()
        invariant
            0 < i <= candidates.len(),
            best < i,
            forall|j: int|
                0 <= j < i ==> !ranks_before(#[trigger] candidates@[j], candidates@[best as int]),
            forall|j: int|
                0 <= j < best ==> ranks_before(candidates@[best as int], #[trigger] candidates@[j]),
        decreases candidates.len() - i,
    {
        let (d, id) = candidates[i];
        let (best_d, best_id) = candidates[best];
        if d < best_d || (d == best_d && id < best_id) {
            best = i;
        }
        i = i + 1;
    }
    if candidates[best].0 > ADMISSIBLE_DISTANCE {
        None
    } else {
        Some(best)
    }
}

/// The road distance between two nodes.
fn calculate_distance(graph: &Graph, node_id_1: i32, node_id_2: i32) -> (r: i32)
    requires
        graph.wf(),
    ensures
        r as int == graph.distance(node_id_1, node_id_2),
{
    graph.shortest_path(node_id_1, node_id_2)
}

/// The index of the truck to send to `order_node_id`: the nearest by road,
/// the lower truck id first among equally near ones, provided it is within
/// [`ADMISSIBLE_DISTANCE`].
pub fn nearest_truck_index(graph: &Graph, trucks: &Vec<TowTruck>, order_node_id: i32) -> (r:
    Option<usize>)
    requires
        graph.wf(),
    ensures
        is_nearest_choice(candidate_keys(graph.node_map(), graph.adjacency(), trucks@, order_node_id), r),
{
    let ghost keys = candidate_keys(graph.node_map(), graph.adjacency(), trucks@, order_node_id);
    let mut candidates: Vec<(i32, i32)> = Vec::new();
    let mut i: usize = 0;
    while i < trucks.len()
        invariant
            graph.wf(),
            i <= trucks.len(),
            keys == candidate_keys(graph.node_map(), graph.adjacency(), trucks@, order_node_id),
            candidates@ == keys.subrange(0, i as int),
        decreases trucks.len() - i,
    {
        let distance = calculate_distance(graph, trucks[i].node_id, order_node_id);
        candidates.push((distance, trucks[i].id));
        proof {
            assert(candidates@ =~= keys.subrange(0, i + 1));
        }
        i = i + 1;
    }
    assert(candidates@ =~= keys);
    pick_nearest(&candidates)
}

/// The truck to send to an order at `order_node_id`, among the available
/// `trucks` of its area, over the graph of that area's `nodes` and roads
/// `edges`; none when no truck is within [`ADMISSIBLE_DISTANCE`].
pub fn nearest_available_tow_truck(
    nodes: &Vec<Node>,
    edges: &Vec<Edge>,
    trucks: Vec<TowTruck>,
    order_node_id: i32,
) -> (r: Option<TowTruckDto>)
    requires
        forall|i: int| 0 <= i < edges.len() ==> #[trigger] edges[i].weight >= 0,
    ensures
        r.is_none() <==> is_nearest_choice(
            candidate_keys(node_map_of(nodes@), adjacency_of(edges@), trucks@, order_node_id),
            None,
        ),
        r matches Some(dto) ==> exists|k: usize|
            is_nearest_choice(candidate_keys(node_map_of(nodes@), adjacency_of(edges@), trucks@, order_node_id), Some(k))
                && reports_truck(dto, #[trigger] trucks@[k as int]),
{
    let graph = Graph::build(nodes, edges);
    let ghost keys = candidate_keys(node_map_of(nodes@), adjacency_of(edges@), trucks@, order_node_id);
    let mut trucks = trucks;
    let ghost all = trucks@;
    match nearest_truck_index(&graph, &trucks, order_node_id) {
        None => None,
        Some(k) => {
            let truck = trucks.remove(k);
            let dto = TowTruckDto::from_entity(truck);
            assert(is_nearest_choice(keys, Some(k)) && reports_truck(dto, all[k as int]));
            Some(dto)
        },
    }
}

/// A truck with no route to the order is never the one chosen.
pub proof fn lemma_unreachable_truck_not_chosen(
    g: Graph,
    trucks: Seq<TowTruck>,
    order_node_id: i32,
    i: usize,
)
    requires
        g.wf(),
        i < trucks.len(),
        forall|es: Seq<Edge>| !#[trigger] is_route(g.adjacency(), trucks[i as int].node_id, order_node_id, es),
    ensures
        !is_nearest_choice(candidate_keys(g.node_map(), g.adjacency(), trucks, order_node_id), Some(i)),
{
    lemma_no_route_unreachable(g, trucks[i as int].node_id, order_node_id);
    assert(candidate_keys(g.node_map(), g.adjacency(), trucks, order_node_id)[i as int].0 == UNREACHABLE);
}

} // verus!
