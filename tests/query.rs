use tow_dispatch::query::{is_descending, order_listing, sort_column, truck_page_window, SortColumn};

#[test]
fn sort_column_by_name() {
    assert_eq!(sort_column(&Some("car_value".to_string())), SortColumn::CarValue);
    assert_eq!(sort_column(&Some("status".to_string())), SortColumn::Status);
    assert_eq!(sort_column(&Some("order_time".to_string())), SortColumn::OrderTime);
    assert_eq!(sort_column(&Some("bogus".to_string())), SortColumn::OrderTime);
    assert_eq!(sort_column(&None), SortColumn::OrderTime);
    assert_eq!(SortColumn::CarValue.column(), "o.car_value");
    assert_eq!(SortColumn::OrderTime.column(), "o.order_time");
}

#[test]
fn descending_only_when_asked() {
    assert!(is_descending(&Some("DESC".to_string())));
    assert!(is_descending(&Some("desc".to_string())));
    assert!(!is_descending(&Some("Desc".to_string())));
    assert!(!is_descending(&None));
}

#[test]
fn order_listing_offsets() {
    let l = order_listing(3, 10, &Some("status".to_string()), &Some("desc".to_string()));
    assert_eq!(l.column, SortColumn::Status);
    assert!(l.descending);
    assert_eq!((l.limit, l.offset), (10, 30));
    let big = order_listing(i32::MAX, i32::MAX, &None, &None);
    assert_eq!(big.offset, (i32::MAX as i64) * (i32::MAX as i64));
}

#[test]
fn truck_window_all_rows_or_page() {
    assert_eq!(truck_page_window(0, -1), None);
    assert_eq!(truck_page_window(2, 25), Some((25, 50)));
}
