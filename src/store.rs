//! An in-memory implementation of the storage the lifecycle writes to:
//! orders, tow trucks and dispatch records, with the semantics of the
//! relational store behind the service (an update touches every row with the
//! given id, and none is an error; a dispatch record needs its order).

use crate::dto::{CompletedOrderDto, DispatcherOrderRequestDto};
use crate::error::AppError;
use crate::lifecycle::{
    busy, client_order_command, client_order_outcome, dispatched, pending, Dispatch,
    DispatchStage, StorageCommand,
};
use crate::models::{CarValue, CompletedOrder, Order, Timestamp, TowTruck};
use vstd::prelude::*;

verus! {

/// An order, its status as text.
pub struct OrderView {
    pub id: i32,
    pub client_id: i32,
    pub dispatcher_id: Option<i32>,
    pub tow_truck_id: Option<i32>,
    pub status: Seq<char>,
    pub node_id: i32,
    pub car_value: CarValue,
    pub order_time: Timestamp,
    pub completed_time: Option<Timestamp>,
}

pub open spec fn order_view(o: Order) -> OrderView {
    OrderView {
        id: o.id,
        client_id: o.client_id,
        dispatcher_id: o.dispatcher_id,
        tow_truck_id: o.tow_truck_id,
        status: o.status@,
        node_id: o.node_id,
        car_value: o.car_value,
        order_time: o.order_time,
        completed_time: o.completed_time,
    }
}

/// A tow truck, its status as text.
pub struct TruckView {
    pub id: i32,
    pub driver_id: i32,
    pub driver_username: Option<String>,
    pub status: Seq<char>,
    pub area_id: i32,
    pub node_id: i32,
}

pub open spec fn truck_view(t: TowTruck) -> TruckView {
    TruckView {
        id: t.id,
        driver_id: t.driver_id,
        driver_username: t.driver_username,
        status: t.status@,
        area_id: t.area_id,
        node_id: t.node_id,
    }
}

/// The contents of a [`MemoryStore`].
pub struct StoreView {
    pub orders: Seq<OrderView>,
    pub tow_trucks: Seq<TruckView>,
    pub completed_orders: Seq<CompletedOrder>,
    pub next_order_id: i32,
    pub next_completed_id: i32,
}

impl StoreView {
    /// Ids are handed out in increasing order from 1, so every order id is
    /// below the next one.
    pub open spec fn wf(self) -> bool {
        &&& 1 <= self.next_order_id
        &&& 1 <= self.next_completed_id
        &&& forall|i: int|
            0 <= i < self.orders.len() ==> 1 <= #[trigger] self.orders[i].id < self.next_order_id
    }
}

/// The first order from index `i` on whose id is `id`.
pub open spec fn find_order_from(orders: Seq<OrderView>, id: i32, i: int) -> Option<OrderView>
    decreases orders.len() - i,
{
    if i < 0 || i >= orders.len() {
        None
    } else if orders[i].id == id {
        Some(orders[i])
    } else {
        find_order_from(orders, id, i + 1)
    }
}

/// The order whose id is `id`.
pub open spec fn find_order(orders: Seq<OrderView>, id: i32) -> Option<OrderView> {
    find_order_from(orders, id, 0)
}

/// The first truck from index `i` on whose id is `id`.
pub open spec fn find_truck_from(trucks: Seq<TruckView>, id: i32, i: int) -> Option<TruckView>
    decreases trucks.len() - i,
{
    if i < 0 || i >= trucks.len() {
        None
    } else if trucks[i].id == id {
        Some(trucks[i])
    } else {
        find_truck_from(trucks, id, i + 1)
    }
}

/// The store after inserting a client's order.
pub open spec fn after_insert_order(
    v: StoreView,
    client_id: i32,
    node_id: i32,
    car_value: CarValue,
    now: Timestamp,
) -> StoreView {
    StoreView {
        orders: v.orders.push(
            OrderView {
                id: v.next_order_id,
                client_id,
                dispatcher_id: None,
                tow_truck_id: None,
                status: pending(),
                node_id,
                car_value,
                order_time: now,
                completed_time: None,
            },
        ),
        next_order_id: (v.next_order_id + 1) as i32,
        ..v
    }
}

/// The store after recording the dispatch of an order, when that order
/// exists; the record takes the order's car value.
pub open spec fn after_insert_completed(
    v: StoreView,
    order_id: i32,
    tow_truck_id: i32,
    order_time: Timestamp,
) -> Option<StoreView> {
    match find_order(v.orders, order_id) {
        None => None,
        Some(o) => Some(
            StoreView {
                completed_orders: v.completed_orders.push(
                    CompletedOrder {
                        id: v.next_completed_id,
                        order_id,
                        tow_truck_id,
                        order_time: Some(order_time),
                        completed_time: order_time,
                        car_value: o.car_value,
                    },
                ),
                next_completed_id: (v.next_completed_id + 1) as i32,
                ..v
            },
        ),
    }
}

pub open spec fn assigned(
    o: OrderView,
    order_id: i32,
    dispatcher_id: i32,
    tow_truck_id: i32,
) -> OrderView {
    if o.id == order_id {
        OrderView {
            dispatcher_id: Some(dispatcher_id),
            tow_truck_id: Some(tow_truck_id),
            status: dispatched(),
            ..o
        }
    } else {
        o
    }
}

/// The store after assigning a dispatcher and truck to an order.
pub open spec fn after_assign(
    v: StoreView,
    order_id: i32,
    dispatcher_id: i32,
    tow_truck_id: i32,
) -> StoreView {
    StoreView {
        orders: v.orders.map_values(|o: OrderView| assigned(o, order_id, dispatcher_id, tow_truck_id)),
        ..v
    }
}

pub open spec fn order_with_status(o: OrderView, order_id: i32, status: Seq<char>) -> OrderView {
    if o.id == order_id {
        OrderView { status, ..o }
    } else {
        o
    }
}

/// The store after overwriting an order's status.
pub open spec fn after_order_status(v: StoreView, order_id: i32, status: Seq<char>) -> StoreView {
    StoreView {
        orders: v.orders.map_values(|o: OrderView| order_with_status(o, order_id, status)),
        ..v
    }
}

pub open spec fn truck_with_status(t: TruckView, tow_truck_id: i32, status: Seq<char>) -> TruckView {
    if t.id == tow_truck_id {
        TruckView { status, ..t }
    } else {
        t
    }
}

/// The store after overwriting a truck's status.
pub open spec fn after_truck_status(v: StoreView, tow_truck_id: i32, status: Seq<char>) -> StoreView {
    StoreView {
        tow_trucks: v.tow_trucks.map_values(
            |t: TruckView| truck_with_status(t, tow_truck_id, status),
        ),
        ..v
    }
}

/// The store after `cmd`, or none when storage refuses it (a dispatch
/// record for an order that does not exist, or ids run out).
pub open spec fn after_command(v: StoreView, cmd: StorageCommand, now: Timestamp) -> Option<
    StoreView,
> {
    match cmd {
        StorageCommand::InsertOrder { client_id, node_id, car_value } => if v.next_order_id
            < i32::MAX {
            Some(after_insert_order(v, client_id, node_id, car_value, now))
        } else {
            None
        },
        StorageCommand::InsertCompletedOrder { order_id, tow_truck_id, order_time } => if v.next_completed_id
            < i32::MAX {
            after_insert_completed(v, order_id, tow_truck_id, order_time)
        } else {
            None
        },
        StorageCommand::SetOrderDispatched { order_id, dispatcher_id, tow_truck_id } => Some(
            after_assign(v, order_id, dispatcher_id, tow_truck_id),
        ),
        StorageCommand::SetTruckStatus { tow_truck_id, status } => Some(
            after_truck_status(v, tow_truck_id, status@),
        ),
        StorageCommand::SetOrderStatus { order_id, status } => Some(
            after_order_status(v, order_id, status@),
        ),
    }
}

proof fn lemma_find_after_push(orders: Seq<OrderView>, x: OrderView, i: int)
    requires
        0 <= i <= orders.len(),
        forall|j: int| i <= j < orders.len() ==> #[trigger] orders[j].id != x.id,
    ensures
        find_order_from(orders.push(x), x.id, i) == Some(x),
    decreases orders.len() - i,
{
    let o2 = orders.push(x);
    if i < orders.len() {
        assert(o2[i] == orders[i]);
        lemma_find_after_push(orders, x, i + 1);
    } else {
        assert(o2[i] == x);
    }
}

proof fn lemma_found_has_id(orders: Seq<OrderView>, id: i32, i: int)
    ensures
        find_order_from(orders, id, i) matches Some(o) ==> o.id == id,
    decreases orders.len() - i,
{
    if 0 <= i < orders.len() && orders[i].id != id {
        lemma_found_has_id(orders, id, i + 1);
    }
}

proof fn lemma_find_after_assign(
    orders: Seq<OrderView>,
    id: i32,
    order_id: i32,
    dispatcher_id: i32,
    tow_truck_id: i32,
    i: int,
)
    requires
        0 <= i <= orders.len(),
    ensures
        find_order_from(
            orders.map_values(|o: OrderView| assigned(o, order_id, dispatcher_id, tow_truck_id)),
            id,
            i,
        ) == match find_order_from(orders, id, i) {
            Some(o) => Some(assigned(o, order_id, dispatcher_id, tow_truck_id)),
            None => None,
        },
    decreases orders.len() - i,
{
    if i < orders.len() {
        lemma_find_after_assign(orders, id, order_id, dispatcher_id, tow_truck_id, i + 1);
    }
}

/// Creating a client's order and then reading it back by its id gives an
/// order with status `pending`, the given client, node and car value, and
/// no dispatcher or truck.
pub proof fn lemma_created_order_is_pending(
    v: StoreView,
    client_id: i32,
    node_id: i32,
    car_value: CarValue,
    now: Timestamp,
)
    requires
        v.wf(),
        v.next_order_id < i32::MAX,
    ensures
        find_order(after_insert_order(v, client_id, node_id, car_value, now).orders, v.next_order_id)
            matches Some(o) && o.status == pending() && o.client_id == client_id && o.node_id
            == node_id && o.car_value == car_value && o.dispatcher_id is None
            && o.tow_truck_id is None,
{
    let x = after_insert_order(v, client_id, node_id, car_value, now).orders.last();
    assert(after_insert_order(v, client_id, node_id, car_value, now).orders == v.orders.push(x));
    lemma_find_after_push(v.orders, x, 0);
}

/// A dispatch that succeeded left a dispatch record with its order, its
/// truck and its time.
pub proof fn lemma_dispatch_is_recorded(v: StoreView, req: DispatcherOrderRequestDto)
    requires
        v.wf(),
        run_dispatch(v, req).1 is Ok,
    ensures
        exists|j: int|
            0 <= j < run_dispatch(v, req).0.completed_orders.len() && {
                let c = #[trigger] run_dispatch(v, req).0.completed_orders[j];
                &&& c.order_id == req.order_id
                &&& c.tow_truck_id == req.tow_truck_id
                &&& c.order_time == Some(req.order_time)
            },
{
    let cs = run_dispatch(v, req).0.completed_orders;
    assert(cs == v.completed_orders.push(cs.last()));
    assert(cs[cs.len() - 1] == cs.last());
}

/// Dispatching an order that is already `dispatched` is not refused: all
/// three writes happen again (a second dispatch record, the order's
/// dispatcher and truck, the truck's status).
pub proof fn lemma_redispatch_writes_again(v: StoreView, req: DispatcherOrderRequestDto)
    requires
        v.wf(),
        v.next_completed_id < i32::MAX,
        find_order(v.orders, req.order_id) matches Some(o) && o.status == dispatched(),
    ensures
        run_dispatch(v, req).1 == Ok::<(), AppError>(()),
        run_dispatch(v, req).0.completed_orders.len() == v.completed_orders.len() + 1,
        run_dispatch(v, req).0.completed_orders.last().order_id == req.order_id,
        run_dispatch(v, req).0.completed_orders.last().tow_truck_id == req.tow_truck_id,
        find_order(run_dispatch(v, req).0.orders, req.order_id) matches Some(o) && o.status
            == dispatched() && o.dispatcher_id == Some(req.dispatcher_id) && o.tow_truck_id
            == Some(req.tow_truck_id),
        forall|j: int|
            0 <= j < run_dispatch(v, req).0.tow_trucks.len() && (
            #[trigger] run_dispatch(v, req).0.tow_trucks[j]).id == req.tow_truck_id
                ==> run_dispatch(v, req).0.tow_trucks[j].status == busy(),
{
    let v1 = after_record(v, req)->Some_0;
    lemma_found_has_id(v.orders, req.order_id, 0);
    assert(v1.orders == v.orders);
    lemma_find_after_assign(
        v1.orders,
        req.order_id,
        req.order_id,
        req.dispatcher_id,
        req.tow_truck_id,
        0,
    );
}

/// Orders, tow trucks and dispatch records held in memory.
pub struct MemoryStore {
    orders: Vec<Order>,
    tow_trucks: Vec<TowTruck>,
    completed_orders: Vec<CompletedOrder>,
    next_order_id: i32,
    next_completed_id: i32,
}

/// The store after the first write of a dispatch, or none when storage
/// refuses it.
pub open spec fn after_record(v: StoreView, req: DispatcherOrderRequestDto) -> Option<StoreView> {
    if v.next_completed_id < i32::MAX {
        after_insert_completed(v, req.order_id, req.tow_truck_id, req.order_time)
    } else {
        None
    }
}

/// The result of running the dispatch protocol against the store: the
/// dispatch record first; when storage refuses it, nothing else is written.
/// The order and the truck updates cannot fail here.
pub open spec fn run_dispatch(v: StoreView, req: DispatcherOrderRequestDto) -> (
    StoreView,
    Result<(), AppError>,
) {
    match after_record(v, req) {
        None => (v, Err(AppError::BadRequest)),
        Some(v1) => (
            after_truck_status(
                after_assign(v1, req.order_id, req.dispatcher_id, req.tow_truck_id),
                req.tow_truck_id,
                busy(),
            ),
            Ok(()),
        ),
    }
}

/// How many writes a dispatch at `stage` has left.
pub open spec fn stage_rank(stage: DispatchStage) -> nat {
    match stage {
        DispatchStage::RecordDispatch => 3,
        DispatchStage::AssignOrder => 2,
        DispatchStage::MarkTruckBusy => 1,
        DispatchStage::Done => 0,
    }
}

fn copy_order(o: &Order) -> (r: Order)
    ensures
        r == *o,
{
    Order {
        id: o.id,
        client_id: o.client_id,
        dispatcher_id: o.dispatcher_id,
        tow_truck_id: o.tow_truck_id,
        status: o.status.clone(),
        node_id: o.node_id,
        car_value: o.car_value,
        order_time: o.order_time,
        completed_time: o.completed_time,
    }
}

fn copy_truck(t: &TowTruck) -> (r: TowTruck)
    ensures
        r == *t,
{
    TowTruck {
        id: t.id,
        driver_id: t.driver_id,
        driver_username: match &t.driver_username {
            Some(name) => Some(name.clone()),
            None => None,
        },
        status: t.status.clone(),
        area_id: t.area_id,
        node_id: t.node_id,
    }
}

impl View for MemoryStore {
    type V = StoreView;

    closed spec fn view(&self) -> StoreView {
        StoreView {
            orders: self.orders@.map_values(|o: Order| order_view(o)),
            tow_trucks: self.tow_trucks@.map_values(|t: TowTruck| truck_view(t)),
            completed_orders: self.completed_orders@,
            next_order_id: self.next_order_id,
            next_completed_id: self.next_completed_id,
        }
    }
}

impl MemoryStore {
    /// An empty store; the first order gets id 1.
    pub fn new() -> (s: MemoryStore)
        ensures
            s@.wf(),
            s@.orders.len() == 0,
            s@.tow_trucks.len() == 0,
            s@.completed_orders.len() == 0,
            s@.next_order_id == 1,
            s@.next_completed_id == 1,
    {
        let s = MemoryStore {
            orders: Vec::new(),
            tow_trucks: Vec::new(),
            completed_orders: Vec::new(),
            next_order_id: 1,
            next_completed_id: 1,
        };
        assert(s@.orders =~= Seq::<OrderView>::empty());
        assert(s@.tow_trucks =~= Seq::<TruckView>::empty());
        s
    }

    /// Registers a tow truck.
    pub fn add_tow_truck(&mut self, truck: TowTruck)
        requires
            old(self)@.wf(),
        ensures
            final(self)@.wf(),
            final(self)@ == (StoreView {
                tow_trucks: old(self)@.tow_trucks.push(truck_view(truck)),
                ..old(self)@
            }),
    {
        self.tow_trucks.push(truck);
        assert(self@.tow_trucks =~= old(self)@.tow_trucks.push(truck_view(truck)));
        assert(self@.orders =~= old(self)@.orders);
    }

    /// The order whose id is `id`.
    pub fn get_order(&self, id: i32) -> (r: Result<Order, AppError>)
        ensures
            match find_order(self@.orders, id) {
                Some(o) => r matches Ok(order) && order_view(order) == o,
                None => r == Err::<Order, AppError>(AppError::NotFound),
            },
    {
        let mut i: usize = 0;
        while i < self.orders.len()
            invariant
                i <= self.orders.len(),
                find_order(self@.orders, id) == find_order_from(self@.orders, id, i as int),
            decreases self.orders.len() - i,
        {
            if self.orders[i].id == id {
                assert(self@.orders[i as int] == order_view(self.orders@[i as int]));
                return Ok(copy_order(&self.orders[i]));
            }
            i = i + 1;
        }
        Err(AppError::NotFound)
    }

    /// The tow truck whose id is `id`, the first one registered if several.
    pub fn find_tow_truck(&self, id: i32) -> (r: Option<TowTruck>)
        ensures
            match find_truck_from(self@.tow_trucks, id, 0) {
                Some(t) => r matches Some(truck) && truck_view(truck) == t,
                None => r is None,
            },
    {
        let mut i: usize = 0;
        while i < self.tow_trucks.len()
            invariant
                i <= self.tow_trucks.len(),
                find_truck_from(self@.tow_trucks, id, 0) == find_truck_from(
                    self@.tow_trucks,
                    id,
                    i as int,
                ),
            decreases self.tow_trucks.len() - i,
        {
            if self.tow_trucks[i].id == id {
                assert(self@.tow_trucks[i as int] == truck_view(self.tow_trucks@[i as int]));
                return Some(copy_truck(&self.tow_trucks[i]));
            }
            i = i + 1;
        }
        None
    }

    fn insert_order(&mut self, client_id: i32, node_id: i32, car_value: CarValue, now: Timestamp) -> (r:
        Result<(), AppError>)
        requires
            old(self)@.wf(),
        ensures
            final(self)@.wf(),
            match after_command(
                old(self)@,
                StorageCommand::InsertOrder { client_id, node_id, car_value },
                now,
            ) {
                Some(v) => r is Ok && final(self)@ == v,
                None => r == Err::<(), AppError>(AppError::StorageFailure) && final(self)@ == old(
                    self,
                )@,
            },
    {
        if self.next_order_id == i32::MAX {
            return Err(AppError::StorageFailure);
        }
        let order = Order {
            id: self.next_order_id,
            client_id,
            dispatcher_id: None,
            tow_truck_id: None,
            status: "pending".to_owned(),
            node_id,
            car_value,
            order_time: now,
            completed_time: None,
        };
        self.orders.push(order);
        self.next_order_id = self.next_order_id + 1;
        assert(self@.orders =~= after_insert_order(old(self)@, client_id, node_id, car_value, now).orders);
        assert(self@.tow_trucks =~= old(self)@.tow_trucks);
        Ok(())
    }

    fn insert_completed_order(&mut self, order_id: i32, tow_truck_id: i32, order_time: Timestamp) -> (r:
        Result<(), AppError>)
        requires
            old(self)@.wf(),
        ensures
            final(self)@.wf(),
            match (if old(self)@.next_completed_id < i32::MAX {
                after_insert_completed(old(self)@, order_id, tow_truck_id, order_time)
            } else {
                None
            }) {
                Some(v) => r is Ok && final(self)@ == v,
                None => r == Err::<(), AppError>(AppError::StorageFailure) && final(self)@ == old(
                    self,
                )@,
            },
    {
        if self.next_completed_id == i32::MAX {
            return Err(AppError::StorageFailure);
        }
        match self.get_order(order_id) {
            Err(_) => Err(AppError::StorageFailure),
            Ok(order) => {
                let record = CompletedOrder {
                    id: self.next_completed_id,
                    order_id,
                    tow_truck_id,
                    order_time: Some(order_time),
                    completed_time: order_time,
                    car_value: order.car_value,
                };
                self.completed_orders.push(record);
                self.next_completed_id = self.next_completed_id + 1;
                assert(self@.orders =~= old(self)@.orders);
                assert(self@.tow_trucks =~= old(self)@.tow_trucks);
                Ok(())
            },
        }
    }

    fn set_order_dispatched(&mut self, order_id: i32, dispatcher_id: i32, tow_truck_id: i32)
        requires
            old(self)@.wf(),
        ensures
            final(self)@.wf(),
            final(self)@ == after_assign(old(self)@, order_id, dispatcher_id, tow_truck_id),
    {
        let mut i: usize = 0;
        while i < self.orders.len()
            invariant
                self.orders.len() == old(self).orders.len(),
                i <= self.orders.len(),
                forall|j: int|
                    0 <= j < i ==> order_view(#[trigger] self.orders@[j]) == assigned(
                        order_view(old(self).orders@[j]),
                        order_id,
                        dispatcher_id,
                        tow_truck_id,
                    ),
                forall|j: int| i <= j < self.orders.len() ==> #[trigger] self.orders@[j] == old(
                    self,
                ).orders@[j],
                self.tow_trucks == old(self).tow_trucks,
                self.completed_orders == old(self).completed_orders,
                self.next_order_id == old(self).next_order_id,
                self.next_completed_id == old(self).next_completed_id,
            decreases self.orders.len() - i,
        {
            if self.orders[i].id == order_id {
                let o = &self.orders[i];
                let updated = Order {
                    id: o.id,
                    client_id: o.client_id,
                    dispatcher_id: Some(dispatcher_id),
                    tow_truck_id: Some(tow_truck_id),
                    status: "dispatched".to_owned(),
                    node_id: o.node_id,
                    car_value: o.car_value,
                    order_time: o.order_time,
                    completed_time: o.completed_time,
                };
                self.orders.set(i, updated);
            }
            i = i + 1;
        }
        assert(self@.orders =~= after_assign(old(self)@, order_id, dispatcher_id, tow_truck_id).orders);
    }

    fn set_order_status(&mut self, order_id: i32, status: &str)
        requires
            old(self)@.wf(),
        ensures
            final(self)@.wf(),
            final(self)@ == after_order_status(old(self)@, order_id, status@),
    {
        let mut i: usize = 0;
        while i < self.orders.len()
            invariant
                self.orders.len() == old(self).orders.len(),
                i <= self.orders.len(),
                forall|j: int|
                    0 <= j < i ==> order_view(#[trigger] self.orders@[j]) == order_with_status(
                        order_view(old(self).orders@[j]),
                        order_id,
                        status@,
                    ),
                forall|j: int| i <= j < self.orders.len() ==> #[trigger] self.orders@[j] == old(
                    self,
                ).orders@[j],
                self.tow_trucks == old(self).tow_trucks,
                self.completed_orders == old(self).completed_orders,
                self.next_order_id == old(self).next_order_id,
                self.next_completed_id == old(self).next_completed_id,
            decreases self.orders.len() - i,
        {
            if self.orders[i].id == order_id {
                let o = &self.orders[i];
                let updated = Order {
                    id: o.id,
                    client_id: o.client_id,
                    dispatcher_id: o.dispatcher_id,
                    tow_truck_id: o.tow_truck_id,
                    status: status.to_owned(),
                    node_id: o.node_id,
                    car_value: o.car_value,
                    order_time: o.order_time,
                    completed_time: o.completed_time,
                };
                self.orders.set(i, updated);
            }
            i = i + 1;
        }
        assert(self@.orders =~= after_order_status(old(self)@, order_id, status@).orders);
    }

    fn set_truck_status(&mut self, tow_truck_id: i32, status: &str)
        requires
            old(self)@.wf(),
        ensures
            final(self)@.wf(),
            final(self)@ == after_truck_status(old(self)@, tow_truck_id, status@),
    {
        let mut i: usize = 0;
        while i < self.tow_trucks.len()
            invariant
                self.tow_trucks.len() == old(self).tow_trucks.len(),
                i <= self.tow_trucks.len(),
                forall|j: int|
                    0 <= j < i ==> truck_view(#[trigger] self.tow_trucks@[j]) == truck_with_status(
                        truck_view(old(self).tow_trucks@[j]),
                        tow_truck_id,
                        status@,
                    ),
                forall|j: int|
                    i <= j < self.tow_trucks.len() ==> #[trigger] self.tow_trucks@[j] == old(
                        self,
                    ).tow_trucks@[j],
                self.orders == old(self).orders,
                self.completed_orders == old(self).completed_orders,
                self.next_order_id == old(self).next_order_id,
                self.next_completed_id == old(self).next_completed_id,
            decreases self.tow_trucks.len() - i,
        {
            if self.tow_trucks[i].id == tow_truck_id {
                let t = &self.tow_trucks[i];
                let updated = TowTruck {
                    id: t.id,
                    driver_id: t.driver_id,
                    driver_username: match &t.driver_username {
                        Some(name) => Some(name.clone()),
                        None => None,
                    },
                    status: status.to_owned(),
                    area_id: t.area_id,
                    node_id: t.node_id,
                };
                self.tow_trucks.set(i, updated);
            }
            i = i + 1;
        }
        assert(self@.tow_trucks =~= after_truck_status(old(self)@, tow_truck_id, status@).tow_trucks);
    }

    /// Performs `cmd`; a command that storage refuses changes nothing and
    /// fails with a storage failure.
    pub fn execute(&mut self, cmd: &StorageCommand, now: Timestamp) -> (r: Result<(), AppError>)
        requires
            old(self)@.wf(),
        ensures
            final(self)@.wf(),
            match after_command(old(self)@, *cmd, now) {
                Some(v) => r is Ok && final(self)@ == v,
                None => r == Err::<(), AppError>(AppError::StorageFailure) && final(self)@ == old(
                    self,
                )@,
            },
    {
        match cmd {
            StorageCommand::InsertOrder { client_id, node_id, car_value } => self.insert_order(
                *client_id,
                *node_id,
                *car_value,
                now,
            ),
            StorageCommand::InsertCompletedOrder { order_id, tow_truck_id, order_time } => {
                self.insert_completed_order(*order_id, *tow_truck_id, *order_time)
            },
            StorageCommand::SetOrderDispatched { order_id, dispatcher_id, tow_truck_id } => {
                self.set_order_dispatched(*order_id, *dispatcher_id, *tow_truck_id);
                Ok(())
            },
            StorageCommand::SetTruckStatus { tow_truck_id, status } => {
                self.set_truck_status(*tow_truck_id, status.as_str());
                Ok(())
            },
            StorageCommand::SetOrderStatus { order_id, status } => {
                self.set_order_status(*order_id, status.as_str());
                Ok(())
            },
        }
    }

    /// Creates a client's order with status `pending`, under the next order
    /// id; fails with a bad request when storage refuses it.
    pub fn create_client_order(
        &mut self,
        client_id: i32,
        node_id: i32,
        car_value: CarValue,
        now: Timestamp,
    ) -> (r: Result<(), AppError>)
        requires
            old(self)@.wf(),
        ensures
            final(self)@.wf(),
            old(self)@.next_order_id < i32::MAX ==> r is Ok && final(self)@ == after_insert_order(
                old(self)@,
                client_id,
                node_id,
                car_value,
                now,
            ),
            old(self)@.next_order_id == i32::MAX ==> r == Err::<(), AppError>(AppError::BadRequest)
                && final(self)@ == old(self)@,
    {
        let cmd = client_order_command(client_id, node_id, car_value);
        let succeeded = self.execute(&cmd, now).is_ok();
        client_order_outcome(succeeded)
    }

    /// Overwrites the status of order `order_id` with any text; the
    /// lifecycle's order of statuses is not enforced.
    pub fn update_order_status(&mut self, order_id: i32, status: &str) -> (r: Result<(), AppError>)
        requires
            old(self)@.wf(),
        ensures
            final(self)@.wf(),
            r is Ok,
            final(self)@ == after_order_status(old(self)@, order_id, status@),
    {
        self.set_order_status(order_id, status);
        Ok(())
    }

    /// Dispatches truck `request.tow_truck_id` to order `request.order_id`
    /// by running the three-step protocol against this store.
    pub fn dispatch_order(&mut self, request: DispatcherOrderRequestDto) -> (r: Result<(), AppError>)
        requires
            old(self)@.wf(),
        ensures
            final(self)@.wf(),
            (final(self)@, r) == run_dispatch(old(self)@, request),
    {
        let ghost v0 = self@;
        let now = request.order_time;
        let mut dispatch = Dispatch::new(request);
        loop
            invariant
                self@.wf(),
                v0 == old(self)@,
                dispatch.request == request,
                dispatch.stage != DispatchStage::Done,
                dispatch.stage == DispatchStage::RecordDispatch ==> self@ == v0,
                dispatch.stage == DispatchStage::AssignOrder ==> after_record(v0, request) == Some(
                    self@,
                ),
                dispatch.stage == DispatchStage::MarkTruckBusy ==> (after_record(v0, request) matches Some(v1)
                    && self@ == after_assign(
                    v1,
                    request.order_id,
                    request.dispatcher_id,
                    request.tow_truck_id,
                )),
            decreases stage_rank(dispatch.stage),
        {
            let cmd = match dispatch.next_command() {
                Some(cmd) => cmd,
                None => {
                    return Err(AppError::InternalServerError);
                },
            };
            let succeeded = self.execute(&cmd, now).is_ok();
            match dispatch.record_outcome(succeeded) {
                Some(outcome) => {
                    return outcome;
                },
                None => {},
            }
        }
    }

    /// Every dispatch record, in the order written.
    pub fn completed_orders(&self) -> (r: Vec<CompletedOrderDto>)
        ensures
            r.len() == self@.completed_orders.len(),
            forall|j: int| 0 <= j < r.len() ==> {
                let c = #[trigger] self@.completed_orders[j];
                &&& r[j].id == c.id
                &&& r[j].order_id == c.order_id
                &&& r[j].tow_truck_id == c.tow_truck_id
                &&& r[j].order_time == c.order_time
                &&& r[j].completed_time == c.completed_time
                &&& r[j].car_value == c.car_value
            },
    {
        let mut r: Vec<CompletedOrderDto> = Vec::new();
        let mut i: usize = 0;
        while i < self.completed_orders.len()
            invariant
                i <= self.completed_orders.len(),
                r.len() == i,
                forall|j: int| 0 <= j < i ==> {
                    let c = #[trigger] self@.completed_orders[j];
                    &&& r[j].id == c.id
                    &&& r[j].order_id == c.order_id
                    &&& r[j].tow_truck_id == c.tow_truck_id
                    &&& r[j].order_time == c.order_time
                    &&& r[j].completed_time == c.completed_time
                    &&& r[j].car_value == c.car_value
                },
            decreases self.completed_orders.len() - i,
        {
            r.push(CompletedOrderDto::from_entity(self.completed_orders[i]));
            i = i + 1;
        }
        r
    }
}

} // verus!
