use tow_dispatch::dto::TowTruckDto;
use tow_dispatch::graph::{Edge, Graph, Node};
use tow_dispatch::matcher::{
    nearest_available_tow_truck, nearest_truck_index, pick_nearest, ADMISSIBLE_DISTANCE,
};
use tow_dispatch::models::TowTruck;

fn truck(id: i32, node_id: i32) -> TowTruck {
    TowTruck {
        id,
        driver_id: 100 + id,
        driver_username: Some(format!("driver{}", id)),
        status: "available".to_string(),
        area_id: 1,
        node_id,
    }
}

fn edge(a: i32, b: i32, w: i32) -> Edge {
    Edge { node_a_id: a, node_b_id: b, weight: w }
}

fn star() -> (Vec<Node>, Vec<Edge>) {
    // order at node 0; trucks at nodes 1, 2, 3 at distances 12, 7, 20
    let nodes = (0..5).map(|id| Node { id, x: id, y: 0 }).collect();
    let edges = vec![edge(0, 1, 12), edge(0, 2, 7), edge(0, 3, 20)];
    (nodes, edges)
}

#[test]
fn picks_the_nearest_distance() {
    assert_eq!(pick_nearest(&vec![(12, 1), (7, 2), (20, 3)]), Some(1));
}

#[test]
fn picks_none_beyond_cutoff() {
    let far = ADMISSIBLE_DISTANCE + 1;
    assert_eq!(pick_nearest(&vec![(far, 1), (i32::MAX, 2), (far + 5, 3)]), None);
    assert_eq!(pick_nearest(&vec![(ADMISSIBLE_DISTANCE, 4)]), Some(0));
}

#[test]
fn picks_none_from_no_candidates() {
    assert_eq!(pick_nearest(&vec![]), None);
}

#[test]
fn ties_go_to_the_lower_truck_id() {
    assert_eq!(pick_nearest(&vec![(5, 9), (5, 3), (6, 1), (5, 4)]), Some(1));
    assert_eq!(pick_nearest(&vec![(5, 3), (5, 3)]), Some(0));
}

#[test]
fn nearest_truck_over_the_road_graph() {
    let (nodes, edges) = star();
    let trucks = vec![truck(1, 1), truck(2, 2), truck(3, 3)];
    let chosen: TowTruckDto = nearest_available_tow_truck(&nodes, &edges, trucks, 0).unwrap();
    assert_eq!(chosen.id, 2);
    assert_eq!(chosen.driver_user_id, 102);
    assert_eq!(chosen.driver_username.as_deref(), Some("driver2"));
    assert_eq!(chosen.status, "available");
    assert_eq!(chosen.node_id, 2);
    assert_eq!(chosen.area_id, 1);
}

#[test]
fn unreachable_truck_is_not_chosen() {
    let (nodes, edges) = star();
    // node 4 has no road at all
    let trucks = vec![truck(1, 4)];
    assert!(nearest_available_tow_truck(&nodes, &edges, trucks, 0).is_none());
    let trucks = vec![truck(1, 4), truck(2, 3)];
    let chosen = nearest_available_tow_truck(&nodes, &edges, trucks, 0).unwrap();
    assert_eq!(chosen.id, 2);
}

#[test]
fn no_trucks_no_match() {
    let (nodes, edges) = star();
    assert!(nearest_available_tow_truck(&nodes, &edges, vec![], 0).is_none());
}

#[test]
fn far_truck_is_inadmissible() {
    let nodes = vec![Node { id: 1, x: 0, y: 0 }, Node { id: 2, x: 0, y: 0 }];
    let edges = vec![edge(1, 2, ADMISSIBLE_DISTANCE + 1)];
    let g = Graph::build(&nodes, &edges);
    assert_eq!(nearest_truck_index(&g, &vec![truck(1, 2)], 1), None);
    let edges = vec![edge(1, 2, ADMISSIBLE_DISTANCE)];
    let g = Graph::build(&nodes, &edges);
    assert_eq!(nearest_truck_index(&g, &vec![truck(1, 2)], 1), Some(0));
}

#[test]
fn truck_at_the_order_node_wins() {
    let (nodes, edges) = star();
    let trucks = vec![truck(5, 2), truck(6, 0)];
    let g = Graph::build(&nodes, &edges);
    assert_eq!(nearest_truck_index(&g, &trucks, 0), Some(1));
}

#[test]
fn truck_dto_from_entity() {
    let dto = TowTruckDto::from_entity(truck(3, 8));
    assert_eq!(dto.id, 3);
    assert_eq!(dto.driver_user_id, 103);
    assert_eq!(dto.node_id, 8);
}

#[test]
fn truck_outside_the_area_nodes_is_not_chosen() {
    // node 9 is the far end of a road but not one of the fetched nodes
    let (nodes, mut edges) = star();
    edges.push(edge(0, 9, 1));
    let trucks = vec![truck(1, 9), truck(2, 2)];
    let chosen = nearest_available_tow_truck(&nodes, &edges, trucks, 0).unwrap();
    assert_eq!(chosen.id, 2);
}
