use tow_dispatch::dto::OrderDto;
use tow_dispatch::enrich::{EnrichStage, Found, Lookup, OrderEnrichment};
use tow_dispatch::error::AppError;
use tow_dispatch::models::{CarValue, Dispatcher, Order, Timestamp, TowTruck, User};

fn order(dispatcher_id: Option<i32>, tow_truck_id: Option<i32>) -> Order {
    Order {
        id: 1,
        client_id: 10,
        dispatcher_id,
        tow_truck_id,
        status: "dispatched".to_string(),
        node_id: 77,
        car_value: CarValue { bits: 2500.0f64.to_bits() },
        order_time: Timestamp { secs: 100, nanos: 5 },
        completed_time: None,
    }
}

fn user(id: i32, name: &str) -> User {
    User {
        id,
        username: name.to_string(),
        password: "x".to_string(),
        profile_image: "img.png".to_string(),
        role: "client".to_string(),
    }
}

fn truck(id: i32, driver_id: i32) -> TowTruck {
    TowTruck {
        id,
        driver_id,
        driver_username: None,
        status: "busy".to_string(),
        area_id: 2,
        node_id: 5,
    }
}

fn finish(e: &mut OrderEnrichment, found: Found) -> Result<OrderDto, AppError> {
    e.take(found).expect("finished")
}

#[test]
fn order_without_dispatcher_or_truck() {
    let mut e = OrderEnrichment::new(order(None, None));
    assert_eq!(e.next_lookup(), Some(Lookup::User(10)));
    assert!(e.take(Found::User(Some(user(10, "alice")))).is_none());
    assert_eq!(e.next_lookup(), Some(Lookup::AreaOfNode(77)));
    let dto = finish(&mut e, Found::Area(3)).unwrap();
    assert_eq!(dto.client_username.as_deref(), Some("alice"));
    assert_eq!(dto.dispatcher_user_id, None);
    assert_eq!(dto.driver_username, None);
    assert_eq!(dto.area_id, 3);
    assert_eq!(dto.status, "dispatched");
    assert_eq!(dto.order_time, Timestamp { secs: 100, nanos: 5 });
}

#[test]
fn order_with_dispatcher_and_truck() {
    let mut e = OrderEnrichment::new(order(Some(4), Some(8)));
    e.take(Found::User(Some(user(10, "alice"))));
    assert_eq!(e.next_lookup(), Some(Lookup::Dispatcher(4)));
    e.take(Found::Dispatcher(Some(Dispatcher { id: 4, user_id: 20, area_id: 2 })));
    assert_eq!(e.next_lookup(), Some(Lookup::User(20)));
    e.take(Found::User(Some(user(20, "dora"))));
    assert_eq!(e.next_lookup(), Some(Lookup::TowTruck(8)));
    e.take(Found::TowTruck(Some(truck(8, 30))));
    assert_eq!(e.next_lookup(), Some(Lookup::User(30)));
    e.take(Found::User(Some(user(30, "dan"))));
    assert_eq!(e.next_lookup(), Some(Lookup::AreaOfNode(77)));
    let dto = finish(&mut e, Found::Area(2)).unwrap();
    assert_eq!(dto.dispatcher_id, Some(4));
    assert_eq!(dto.dispatcher_user_id, Some(20));
    assert_eq!(dto.dispatcher_username.as_deref(), Some("dora"));
    assert_eq!(dto.tow_truck_id, Some(8));
    assert_eq!(dto.driver_user_id, Some(30));
    assert_eq!(dto.driver_username.as_deref(), Some("dan"));
    assert_eq!(e.stage, EnrichStage::Done);
    assert_eq!(e.next_lookup(), None);
}

#[test]
fn missing_client_is_not_found() {
    let mut e = OrderEnrichment::new(order(None, None));
    assert_eq!(finish(&mut e, Found::User(None)).unwrap_err(), AppError::NotFound);
}

#[test]
fn missing_dispatcher_is_not_found() {
    let mut e = OrderEnrichment::new(order(Some(4), None));
    e.take(Found::User(Some(user(10, "alice"))));
    assert_eq!(finish(&mut e, Found::Dispatcher(None)).unwrap_err(), AppError::NotFound);
    assert_eq!(e.stage, EnrichStage::Done);
    assert_eq!(e.next_lookup(), None);
}

#[test]
fn missing_dispatcher_user_is_not_found() {
    let mut e = OrderEnrichment::new(order(Some(4), None));
    e.take(Found::User(Some(user(10, "alice"))));
    e.take(Found::Dispatcher(Some(Dispatcher { id: 4, user_id: 20, area_id: 2 })));
    assert_eq!(finish(&mut e, Found::User(None)).unwrap_err(), AppError::NotFound);
}

#[test]
fn missing_truck_is_not_found() {
    let mut e = OrderEnrichment::new(order(None, Some(8)));
    e.take(Found::User(Some(user(10, "alice"))));
    assert_eq!(finish(&mut e, Found::TowTruck(None)).unwrap_err(), AppError::NotFound);
    assert_eq!(e.next_lookup(), None);
}

#[test]
fn missing_truck_after_dispatcher_is_not_found() {
    let mut e = OrderEnrichment::new(order(Some(4), Some(8)));
    e.take(Found::User(Some(user(10, "alice"))));
    e.take(Found::Dispatcher(Some(Dispatcher { id: 4, user_id: 20, area_id: 2 })));
    e.take(Found::User(Some(user(20, "dora"))));
    assert_eq!(finish(&mut e, Found::TowTruck(None)).unwrap_err(), AppError::NotFound);
}

#[test]
fn missing_driver_is_not_found() {
    let mut e = OrderEnrichment::new(order(None, Some(8)));
    e.take(Found::User(Some(user(10, "alice"))));
    e.take(Found::TowTruck(Some(truck(8, 30))));
    assert_eq!(finish(&mut e, Found::User(None)).unwrap_err(), AppError::NotFound);
}

#[test]
fn answer_of_wrong_kind_is_internal_error() {
    let mut e = OrderEnrichment::new(order(None, None));
    assert_eq!(finish(&mut e, Found::Area(1)).unwrap_err(), AppError::InternalServerError);
}
