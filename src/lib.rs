//! Dispatch matching and order-lifecycle engine for a roadside-assistance
//! service: a weighted road graph with shortest-path distances, the choice of
//! the nearest available tow truck, and the rules by which an order, a truck
//! and a dispatch record change together.

pub mod error;
pub mod models;
pub mod dto;
pub mod graph;
pub mod matcher;
pub mod lifecycle;
pub mod store;
pub mod enrich;
pub mod query;
pub mod auth;
