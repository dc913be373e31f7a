//! The shapes in which requests arrive and results leave.

use crate::models::{CarValue, CompletedOrder, Timestamp, TowTruck};
use vstd::prelude::*;

verus! {

/// A sign-up request.
#[derive(Clone, Debug)]
pub struct RegisterRequestDto {
    pub username: String,
    pub password: String,
    pub role: String,
    pub area_id: Option<i32>,
}

/// A login request.
#[derive(Clone, Debug)]
pub struct LoginRequestDto {
    pub username: String,
    pub password: String,
}

/// A logout request.
#[derive(Clone, Debug)]
pub struct LogoutRequestDto {
    pub session_token: String,
}

/// The answer to a successful login.
#[derive(Clone, Debug)]
pub struct LoginResponseDto {
    pub user_id: i32,
    pub username: String,
    pub session_token: String,
    pub role: String,
    pub dispatcher_id: Option<i32>,
    pub area_id: Option<i32>,
}

/// A client's request for assistance.
#[derive(Clone, Debug)]
pub struct ClientOrderRequestDto {
    pub client_id: i32,
    pub node_id: i32,
    pub car_value: CarValue,
}

/// A dispatcher's assignment of a truck to an order.
#[derive(Clone, Debug)]
pub struct DispatcherOrderRequestDto {
    pub order_id: i32,
    pub dispatcher_id: i32,
    pub tow_truck_id: i32,
    pub order_time: Timestamp,
}

/// An administrative status change of an order.
#[derive(Clone, Debug)]
pub struct UpdateOrderStatusRequestDto {
    pub order_id: i32,
    pub status: String,
}

/// A tow truck's new position.
#[derive(Clone, Debug)]
pub struct UpdateLocationRequestDto {
    pub tow_truck_id: i32,
    pub node_id: i32,
}

/// Paging and filters for a listing of orders.
#[derive(Clone, Debug)]
pub struct PaginatedOrderQuery {
    pub page: Option<i32>,
    pub page_size: Option<i32>,
    pub sort_by: Option<String>,
    pub sort_order: Option<String>,
    pub status: Option<String>,
    pub area: Option<i32>,
}

/// Paging and filters for a listing of tow trucks.
#[derive(Clone, Debug)]
pub struct PaginatedTowTruckQuery {
    pub page: Option<i32>,
    pub page_size: Option<i32>,
    pub status: Option<String>,
    pub area: Option<i32>,
}

/// The order for which the nearest truck is wanted.
#[derive(Clone, Debug)]
pub struct TowTruckQuery {
    pub order_id: i32,
}

/// An order joined with the names of the people it involves and its area.
#[derive(Clone, Debug)]
pub struct OrderDto {
    pub id: i32,
    pub client_id: i32,
    pub client_username: Option<String>,
    pub dispatcher_id: Option<i32>,
    pub dispatcher_user_id: Option<i32>,
    pub dispatcher_username: Option<String>,
    pub tow_truck_id: Option<i32>,
    pub driver_user_id: Option<i32>,
    pub driver_username: Option<String>,
    pub status: String,
    pub node_id: i32,
    pub area_id: i32,
    pub car_value: CarValue,
    pub order_time: Timestamp,
    pub completed_time: Option<Timestamp>,
}

/// A dispatch record as reported.
#[derive(Clone, Debug)]
pub struct CompletedOrderDto {
    pub id: i32,
    pub order_id: i32,
    pub tow_truck_id: i32,
    pub order_time: Option<Timestamp>,
    pub completed_time: Timestamp,
    pub car_value: CarValue,
}

impl CompletedOrderDto {
    /// The report shape of a dispatch record, field for field.
    pub fn from_entity(entity: CompletedOrder) -> (r: CompletedOrderDto)
        ensures
            r.id == entity.id,
            r.order_id == entity.order_id,
            r.tow_truck_id == entity.tow_truck_id,
            r.order_time == entity.order_time,
            r.completed_time == entity.completed_time,
            r.car_value == entity.car_value,
    {
        CompletedOrderDto {
            id: entity.id,
            order_id: entity.order_id,
            tow_truck_id: entity.tow_truck_id,
            car_value: entity.car_value,
            order_time: entity.order_time,
            completed_time: entity.completed_time,
        }
    }
}

/// A tow truck as reported.
#[derive(Clone, Debug)]
pub struct TowTruckDto {
    pub id: i32,
    pub driver_user_id: i32,
    pub driver_username: Option<String>,
    pub status: String,
    pub node_id: i32,
    pub area_id: i32,
}

/// `dto` reports `truck`.
pub open spec fn reports_truck(dto: TowTruckDto, truck: TowTruck) -> bool {
    &&& dto.id == truck.id
    &&& dto.driver_user_id == truck.driver_id
    &&& dto.driver_username == truck.driver_username
    &&& dto.status == truck.status
    &&& dto.node_id == truck.node_id
    &&& dto.area_id == truck.area_id
}

impl TowTruckDto {
    /// The report shape of a truck; its driver id becomes the driver's user id.
    pub fn from_entity(entity: TowTruck) -> (r: TowTruckDto)
        ensures
            reports_truck(r, entity),
    {
        TowTruckDto {
            id: entity.id,
            driver_user_id: entity.driver_id,
            driver_username: entity.driver_username,
            status: entity.status,
            node_id: entity.node_id,
            area_id: entity.area_id,
        }
    }
}

} // verus!
