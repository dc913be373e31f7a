use tow_dispatch::dto::DispatcherOrderRequestDto;
use tow_dispatch::error::AppError;
use tow_dispatch::lifecycle::{
    client_order_command, client_order_outcome, Dispatch, DispatchStage, StorageCommand,
};
use tow_dispatch::models::{CarValue, Timestamp, TowTruck};
use tow_dispatch::store::MemoryStore;

fn at(secs: i64) -> Timestamp {
    Timestamp { secs, nanos: 0 }
}

fn value(v: f64) -> CarValue {
    CarValue { bits: v.to_bits() }
}

fn truck(id: i32) -> TowTruck {
    TowTruck {
        id,
        driver_id: 50 + id,
        driver_username: None,
        status: "available".to_string(),
        area_id: 1,
        node_id: 3,
    }
}

fn request(order_id: i32, dispatcher_id: i32, tow_truck_id: i32, secs: i64) -> DispatcherOrderRequestDto {
    DispatcherOrderRequestDto { order_id, dispatcher_id, tow_truck_id, order_time: at(secs) }
}

#[test]
fn created_order_reads_back_pending() {
    let mut store = MemoryStore::new();
    assert_eq!(store.create_client_order(7, 42, value(1500.5), at(1000)), Ok(()));
    let order = store.get_order(1).unwrap();
    assert_eq!(order.id, 1);
    assert_eq!(order.status, "pending");
    assert_eq!(order.client_id, 7);
    assert_eq!(order.node_id, 42);
    assert_eq!(f64::from_bits(order.car_value.bits), 1500.5);
    assert_eq!(order.dispatcher_id, None);
    assert_eq!(order.tow_truck_id, None);
    assert_eq!(order.order_time, at(1000));
    assert_eq!(order.completed_time, None);
}

#[test]
fn orders_get_increasing_ids() {
    let mut store = MemoryStore::new();
    store.create_client_order(1, 10, value(1.0), at(1)).unwrap();
    store.create_client_order(2, 20, value(2.0), at(2)).unwrap();
    assert_eq!(store.get_order(2).unwrap().client_id, 2);
    assert_eq!(store.get_order(3).unwrap_err(), AppError::NotFound);
}

#[test]
fn dispatch_is_listed_in_completed_orders() {
    let mut store = MemoryStore::new();
    store.add_tow_truck(truck(4));
    store.create_client_order(7, 42, value(900.0), at(1000)).unwrap();
    assert_eq!(store.dispatch_order(request(1, 2, 4, 2000)), Ok(()));
    let completed = store.completed_orders();
    assert_eq!(completed.len(), 1);
    assert_eq!(completed[0].order_id, 1);
    assert_eq!(completed[0].tow_truck_id, 4);
    assert_eq!(completed[0].order_time, Some(at(2000)));
    assert_eq!(f64::from_bits(completed[0].car_value.bits), 900.0);
    let order = store.get_order(1).unwrap();
    assert_eq!(order.status, "dispatched");
    assert_eq!(order.dispatcher_id, Some(2));
    assert_eq!(order.tow_truck_id, Some(4));
    assert_eq!(store.find_tow_truck(4).unwrap().status, "busy");
}

#[test]
fn dispatching_a_dispatched_order_writes_again() {
    let mut store = MemoryStore::new();
    store.add_tow_truck(truck(4));
    store.add_tow_truck(truck(5));
    store.create_client_order(7, 42, value(900.0), at(1000)).unwrap();
    store.dispatch_order(request(1, 2, 4, 2000)).unwrap();
    assert_eq!(store.get_order(1).unwrap().status, "dispatched");
    // the engine does not check the transition: all three writes happen again
    assert_eq!(store.dispatch_order(request(1, 3, 5, 3000)), Ok(()));
    let completed = store.completed_orders();
    assert_eq!(completed.len(), 2);
    assert_eq!(completed[1].order_id, 1);
    assert_eq!(completed[1].tow_truck_id, 5);
    assert_eq!(completed[1].order_time, Some(at(3000)));
    let order = store.get_order(1).unwrap();
    assert_eq!(order.status, "dispatched");
    assert_eq!(order.dispatcher_id, Some(3));
    assert_eq!(order.tow_truck_id, Some(5));
    assert_eq!(store.find_tow_truck(5).unwrap().status, "busy");
    assert_eq!(store.find_tow_truck(4).unwrap().status, "busy");
}

#[test]
fn status_update_accepts_any_text() {
    let mut store = MemoryStore::new();
    store.create_client_order(7, 42, value(1.0), at(1)).unwrap();
    assert_eq!(store.update_order_status(1, "dispatched"), Ok(()));
    assert_eq!(store.get_order(1).unwrap().status, "dispatched");
    assert_eq!(store.update_order_status(1, "on hold"), Ok(()));
    assert_eq!(store.get_order(1).unwrap().status, "on hold");
    assert_eq!(store.update_order_status(99, "pending"), Ok(()));
}

#[test]
fn dispatch_of_unknown_order_writes_nothing() {
    let mut store = MemoryStore::new();
    store.add_tow_truck(truck(4));
    assert_eq!(store.dispatch_order(request(9, 2, 4, 2000)), Err(AppError::BadRequest));
    assert!(store.completed_orders().is_empty());
    assert_eq!(store.find_tow_truck(4).unwrap().status, "available");
}

#[test]
fn dispatch_commands_in_order() {
    let mut d = Dispatch::new(request(1, 2, 3, 10));
    match d.next_command() {
        Some(StorageCommand::InsertCompletedOrder { order_id, tow_truck_id, order_time }) => {
            assert_eq!((order_id, tow_truck_id, order_time), (1, 3, at(10)));
        }
        other => panic!("unexpected {:?}", other),
    }
    assert_eq!(d.record_outcome(true), None);
    match d.next_command() {
        Some(StorageCommand::SetOrderDispatched { order_id, dispatcher_id, tow_truck_id }) => {
            assert_eq!((order_id, dispatcher_id, tow_truck_id), (1, 2, 3));
        }
        other => panic!("unexpected {:?}", other),
    }
    assert_eq!(d.record_outcome(true), None);
    match d.next_command() {
        Some(StorageCommand::SetTruckStatus { tow_truck_id, status }) => {
            assert_eq!(tow_truck_id, 3);
            assert_eq!(status, "busy");
        }
        other => panic!("unexpected {:?}", other),
    }
    assert_eq!(d.record_outcome(true), Some(Ok(())));
    assert_eq!(d.stage, DispatchStage::Done);
    assert!(d.next_command().is_none());
}

#[test]
fn failed_record_is_a_bad_request() {
    let mut d = Dispatch::new(request(1, 2, 3, 10));
    assert_eq!(d.record_outcome(false), Some(Err(AppError::BadRequest)));
    assert!(d.next_command().is_none());
}

#[test]
fn failed_order_update_is_a_partial_failure() {
    let mut d = Dispatch::new(request(1, 2, 3, 10));
    d.record_outcome(true);
    assert_eq!(d.record_outcome(false), Some(Err(AppError::PartialFailure)));
    assert!(d.next_command().is_none());
}

#[test]
fn failed_truck_update_is_a_partial_failure() {
    let mut d = Dispatch::new(request(1, 2, 3, 10));
    d.record_outcome(true);
    d.record_outcome(true);
    assert_eq!(d.record_outcome(false), Some(Err(AppError::PartialFailure)));
}

#[test]
fn client_order_command_and_outcome() {
    match client_order_command(7, 42, value(3.0)) {
        StorageCommand::InsertOrder { client_id, node_id, car_value } => {
            assert_eq!((client_id, node_id), (7, 42));
            assert_eq!(car_value, value(3.0));
        }
        other => panic!("unexpected {:?}", other),
    }
    assert_eq!(client_order_outcome(true), Ok(()));
    assert_eq!(client_order_outcome(false), Err(AppError::BadRequest));
}

#[test]
fn execute_runs_each_command() {
    let mut store = MemoryStore::new();
    store.add_tow_truck(truck(4));
    let insert = StorageCommand::InsertOrder { client_id: 1, node_id: 2, car_value: value(5.0) };
    assert_eq!(store.execute(&insert, at(5)), Ok(()));
    let record = StorageCommand::InsertCompletedOrder { order_id: 2, tow_truck_id: 4, order_time: at(6) };
    assert_eq!(store.execute(&record, at(6)), Err(AppError::StorageFailure));
    let status = StorageCommand::SetTruckStatus { tow_truck_id: 4, status: "repair".to_string() };
    assert_eq!(store.execute(&status, at(7)), Ok(()));
    assert_eq!(store.find_tow_truck(4).unwrap().status, "repair");
}
