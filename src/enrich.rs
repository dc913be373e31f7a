//! The presentation of an order: joined, one lookup at a time, with its
//! client's name, its dispatcher's and driver's user ids and names, and its
//! area.

use crate::dto::OrderDto;
use crate::error::AppError;
use crate::models::{Dispatcher, Order, TowTruck, User};
use vstd::prelude::*;

verus! {

/// A read the presentation of an order needs next.
#[derive(Clone, Copy, Debug, PartialEq, Eq, Structural)]
pub enum Lookup {
    /// The user with this id.
    User(i32),
    /// The dispatcher with this id.
    Dispatcher(i32),
    /// The tow truck with this id.
    TowTruck(i32),
    /// The area of the node with this id.
    AreaOfNode(i32),
}

/// The answer to a [`Lookup`].
#[derive(Debug)]
pub enum Found {
    User(Option<User>),
    Dispatcher(Option<Dispatcher>),
    TowTruck(Option<TowTruck>),
    Area(i32),
}

/// Which part of the order is being resolved.
#[derive(Clone, Copy, Debug, PartialEq, Eq, Structural)]
pub enum EnrichStage {
    /// The client's user.
    Client,
    /// The assigned dispatcher.
    Dispatcher,
    /// The user behind the dispatcher, with this id.
    DispatcherUser(i32),
    /// The assigned truck.
    TowTruck,
    /// The user who drives the truck, with this id.
    Driver(i32),
    /// The order's area.
    Area,
    /// Finished, or failed.
    Done,
}

/// An order being joined with what it refers to.
#[derive(Debug)]
pub struct OrderEnrichment {
    pub order: Order,
    pub stage: EnrichStage,
    pub client_username: Option<String>,
    pub dispatcher_user_id: Option<i32>,
    pub dispatcher_username: Option<String>,
    pub driver_user_id: Option<i32>,
    pub driver_username: Option<String>,
}

/// The stage after the dispatcher part: the truck if one is assigned,
/// else the area.
pub open spec fn stage_after_dispatcher(order: Order) -> EnrichStage {
    if order.tow_truck_id is Some {
        EnrichStage::TowTruck
    } else {
        EnrichStage::Area
    }
}

/// The stage after the client: the dispatcher if one is assigned.
pub open spec fn stage_after_client(order: Order) -> EnrichStage {
    if order.dispatcher_id is Some {
        EnrichStage::Dispatcher
    } else {
        stage_after_dispatcher(order)
    }
}

/// The read to make at the current stage.
pub open spec fn lookup_of(e: OrderEnrichment) -> Option<Lookup> {
    match e.stage {
        EnrichStage::Client => Some(Lookup::User(e.order.client_id)),
        EnrichStage::Dispatcher => match e.order.dispatcher_id {
            Some(d) => Some(Lookup::Dispatcher(d)),
            None => None,
        },
        EnrichStage::DispatcherUser(u) => Some(Lookup::User(u)),
        EnrichStage::TowTruck => match e.order.tow_truck_id {
            Some(t) => Some(Lookup::TowTruck(t)),
            None => None,
        },
        EnrichStage::Driver(u) => Some(Lookup::User(u)),
        EnrichStage::Area => Some(Lookup::AreaOfNode(e.order.node_id)),
        EnrichStage::Done => None,
    }
}

/// The presentation of `e`'s order once its area is known.
pub open spec fn finished_dto(e: OrderEnrichment, area_id: i32) -> OrderDto {
    OrderDto {
        id: e.order.id,
        client_id: e.order.client_id,
        client_username: e.client_username,
        dispatcher_id: e.order.dispatcher_id,
        dispatcher_user_id: e.dispatcher_user_id,
        dispatcher_username: e.dispatcher_username,
        tow_truck_id: e.order.tow_truck_id,
        driver_user_id: e.driver_user_id,
        driver_username: e.driver_username,
        status: e.order.status,
        node_id: e.order.node_id,
        area_id,
        car_value: e.order.car_value,
        order_time: e.order.order_time,
        completed_time: e.order.completed_time,
    }
}

/// `e` after the answer `found` at its stage, and the outcome when that
/// ends it. The client, an assigned dispatcher and its user, and an
/// assigned truck and its driver must all exist, else the presentation
/// fails with not found. An answer of the wrong kind is an internal error.
pub open spec fn enrich_step(e: OrderEnrichment, found: Found) -> (OrderEnrichment, Option<
    Result<OrderDto, AppError>,
>) {
    let done = OrderEnrichment { stage: EnrichStage::Done, ..e };
    match (e.stage, found) {
        (EnrichStage::Client, Found::User(Some(u))) => (
            OrderEnrichment {
                stage: stage_after_client(e.order),
                client_username: Some(u.username),
                ..e
            },
            None,
        ),
        (EnrichStage::Dispatcher, Found::Dispatcher(Some(d))) => (
            OrderEnrichment {
                stage: EnrichStage::DispatcherUser(d.user_id),
                dispatcher_user_id: Some(d.user_id),
                ..e
            },
            None,
        ),
        (EnrichStage::DispatcherUser(_), Found::User(Some(u))) => (
            OrderEnrichment {
                stage: stage_after_dispatcher(e.order),
                dispatcher_username: Some(u.username),
                ..e
            },
            None,
        ),
        (EnrichStage::TowTruck, Found::TowTruck(Some(t))) => (
            OrderEnrichment {
                stage: EnrichStage::Driver(t.driver_id),
                driver_user_id: Some(t.driver_id),
                ..e
            },
            None,
        ),
        (EnrichStage::Driver(_), Found::User(Some(u))) => (
            OrderEnrichment { stage: EnrichStage::Area, driver_username: Some(u.username), ..e },
            None,
        ),
        (EnrichStage::Area, Found::Area(a)) => (done, Some(Ok(finished_dto(e, a)))),
        (EnrichStage::Client, Found::User(None)) => (done, Some(Err(AppError::NotFound))),
        (EnrichStage::DispatcherUser(_), Found::User(None)) => (
            done,
            Some(Err(AppError::NotFound)),
        ),
        (EnrichStage::Driver(_), Found::User(None)) => (done, Some(Err(AppError::NotFound))),
        (EnrichStage::Dispatcher, Found::Dispatcher(None)) => (
            done,
            Some(Err(AppError::NotFound)),
        ),
        (EnrichStage::TowTruck, Found::TowTruck(None)) => (done, Some(Err(AppError::NotFound))),
        _ => (done, Some(Err(AppError::InternalServerError))),
    }
}

fn copy_name(name: &Option<String>) -> (r: Option<String>)
    ensures
        r == *name,
{
    match name {
        Some(s) => Some(s.clone()),
        None => None,
    }
}

impl OrderEnrichment {
    /// Starts the presentation of `order`, with its client.
    pub fn new(order: Order) -> (e: OrderEnrichment)
        ensures
            e.order == order,
            e.stage == EnrichStage::Client,
            e.client_username is None,
            e.dispatcher_user_id is None,
            e.dispatcher_username is None,
            e.driver_user_id is None,
            e.driver_username is None,
    {
        OrderEnrichment {
            order,
            stage: EnrichStage::Client,
            client_username: None,
            dispatcher_user_id: None,
            dispatcher_username: None,
            driver_user_id: None,
            driver_username: None,
        }
    }

    /// The read to make now; none once finished.
    pub fn next_lookup(&self) -> (r: Option<Lookup>)
        ensures
            r == lookup_of(*self),
    {
        match self.stage {
            EnrichStage::Client => Some(Lookup::User(self.order.client_id)),
            EnrichStage::Dispatcher => match self.order.dispatcher_id {
                Some(d) => Some(Lookup::Dispatcher(d)),
                None => None,
            },
            EnrichStage::DispatcherUser(u) => Some(Lookup::User(u)),
            EnrichStage::TowTruck => match self.order.tow_truck_id {
                Some(t) => Some(Lookup::TowTruck(t)),
                None => None,
            },
            EnrichStage::Driver(u) => Some(Lookup::User(u)),
            EnrichStage::Area => Some(Lookup::AreaOfNode(self.order.node_id)),
            EnrichStage::Done => None,
        }
    }

    fn stage_after_dispatcher(&self) -> (r: EnrichStage)
        ensures
            r == stage_after_dispatcher(self.order),
    {
        if self.order.tow_truck_id.is_some() {
            EnrichStage::TowTruck
        } else {
            EnrichStage::Area
        }
    }

    fn stage_after_client(&self) -> (r: EnrichStage)
        ensures
            r == stage_after_client(self.order),
    {
        if self.order.dispatcher_id.is_some() {
            EnrichStage::Dispatcher
        } else {
            self.stage_after_dispatcher()
        }
    }

    fn finish(&mut self, r: Result<OrderDto, AppError>) -> (out: Option<Result<OrderDto, AppError>>)
        ensures
            *final(self) == (OrderEnrichment { stage: EnrichStage::Done, ..*old(self) }),
            out == Some(r),
    {
        self.stage = EnrichStage::Done;
        Some(r)
    }

    /// Takes in the answer to the last lookup; returns the presentation, or
    /// why it failed, once finished.
    pub fn take(&mut self, found: Found) -> (r: Option<Result<OrderDto, AppError>>)
        ensures
            (*final(self), r) == enrich_step(*old(self), found),
    {
        match (self.stage, found) {
            (EnrichStage::Client, Found::User(Some(u))) => {
                self.stage = self.stage_after_client();
                self.client_username = Some(u.username);
                None
            },
            (EnrichStage::Dispatcher, Found::Dispatcher(Some(d))) => {
                self.stage = EnrichStage::DispatcherUser(d.user_id);
                self.dispatcher_user_id = Some(d.user_id);
                None
            },
            (EnrichStage::DispatcherUser(_), Found::User(Some(u))) => {
                self.stage = self.stage_after_dispatcher();
                self.dispatcher_username = Some(u.username);
                None
            },
            (EnrichStage::TowTruck, Found::TowTruck(Some(t))) => {
                self.stage = EnrichStage::Driver(t.driver_id);
                self.driver_user_id = Some(t.driver_id);
                None
            },
            (EnrichStage::Driver(_), Found::User(Some(u))) => {
                self.stage = EnrichStage::Area;
                self.driver_username = Some(u.username);
                None
            },
            (EnrichStage::Area, Found::Area(a)) => {
                let dto = OrderDto {
                    id: self.order.id,
                    client_id: self.order.client_id,
                    client_username: copy_name(&self.client_username),
                    dispatcher_id: self.order.dispatcher_id,
                    dispatcher_user_id: self.dispatcher_user_id,
                    dispatcher_username: copy_name(&self.dispatcher_username),
                    tow_truck_id: self.order.tow_truck_id,
                    driver_user_id: self.driver_user_id,
                    driver_username: copy_name(&self.driver_username),
                    status: self.order.status.clone(),
                    node_id: self.order.node_id,
                    area_id: a,
                    car_value: self.order.car_value,
                    order_time: self.order.order_time,
                    completed_time: self.order.completed_time,
                };
                self.finish(Ok(dto))
            },
            (EnrichStage::Client, Found::User(None)) => self.finish(Err(AppError::NotFound)),
            (EnrichStage::DispatcherUser(_), Found::User(None)) => self.finish(
                Err(AppError::NotFound),
            ),
            (EnrichStage::Driver(_), Found::User(None)) => self.finish(Err(AppError::NotFound)),
            (EnrichStage::Dispatcher, Found::Dispatcher(None)) => self.finish(
                Err(AppError::NotFound),
            ),
            (EnrichStage::TowTruck, Found::TowTruck(None)) => self.finish(Err(AppError::NotFound)),
            _ => self.finish(Err(AppError::InternalServerError)),
        }
    }
}

} // verus!
