//! The records the engine reads and writes.

use vstd::prelude::*;

verus! {

/// A point in time, as seconds since the Unix epoch (UTC) and the
/// nanoseconds within that second.
#[derive(Clone, Copy, Debug, PartialEq, Eq, Structural)]
pub struct Timestamp {
    pub secs: i64,
    pub nanos: u32,
}

/// The value of the towed car, carried as the bit pattern of the stored
/// double: the engine passes it through and never computes with it.
#[derive(Clone, Copy, Debug, PartialEq, Eq, Structural)]
pub struct CarValue {
    pub bits: u64,
}

/// A tow truck with its latest known location.
#[derive(Clone, Debug)]
pub struct TowTruck {
    pub id: i32,
    pub driver_id: i32,
    pub driver_username: Option<String>,
    pub status: String,
    pub area_id: i32,
    pub node_id: i32,
}

/// A registered user.
#[derive(Clone, Debug)]
pub struct User {
    pub id: i32,
    pub username: String,
    pub password: String,
    pub profile_image: String,
    pub role: String,
}

/// A login session.
#[derive(Clone, Debug)]
pub struct Session {
    pub id: i32,
    pub user_id: i32,
    pub session_token: String,
    pub is_valid: bool,
}

/// A driver account.
#[derive(Clone, Debug)]
pub struct Driver {
    pub id: i32,
    pub user_id: i32,
    pub session_token: String,
    pub is_valid: bool,
}

/// A dispatcher, attached to a user and responsible for one area.
#[derive(Clone, Debug)]
pub struct Dispatcher {
    pub id: i32,
    pub user_id: i32,
    pub area_id: i32,
}

/// A request for assistance at a node.
#[derive(Clone, Debug)]
pub struct Order {
    pub id: i32,
    pub client_id: i32,
    pub dispatcher_id: Option<i32>,
    pub tow_truck_id: Option<i32>,
    pub status: String,
    pub node_id: i32,
    pub car_value: CarValue,
    pub order_time: Timestamp,
    pub completed_time: Option<Timestamp>,
}

/// The record written when an order is dispatched to a truck.
#[derive(Clone, Copy, Debug)]
pub struct CompletedOrder {
    pub id: i32,
    pub order_id: i32,
    pub tow_truck_id: i32,
    pub order_time: Option<Timestamp>,
    pub completed_time: Timestamp,
    pub car_value: CarValue,
}

} // verus!
