//! The paging and sorting decisions behind the order and truck listings.

use vstd::prelude::*;

verus! {

/// The column an order listing is sorted by.
#[derive(Clone, Copy, Debug, PartialEq, Eq, Structural)]
pub enum SortColumn {
    CarValue,
    Status,
    OrderTime,
}

impl SortColumn {
    /// The qualified column name.
    pub fn column(&self) -> (r: &'static str)
        ensures
            *self == SortColumn::CarValue ==> r@ == "o.car_value"@,
            *self == SortColumn::Status ==> r@ == "o.status"@,
            *self == SortColumn::OrderTime ==> r@ == "o.order_time"@,
    {
        match self {
            SortColumn::CarValue => "o.car_value",
            SortColumn::Status => "o.status",
            SortColumn::OrderTime => "o.order_time",
        }
    }
}

/// How a listing of orders is cut and sorted.
#[derive(Clone, Copy, Debug, PartialEq, Eq, Structural)]
pub struct OrderListing {
    pub column: SortColumn,
    pub descending: bool,
    pub limit: i64,
    pub offset: i64,
}

fn same_text(a: &String, b: &str) -> (r: bool)
    ensures
        r == (a@ == b@),
{
    let owned = b.to_owned();
    *a == owned
}

/// The sort column named by `sort_by`; the order time when it names none.
pub fn sort_column(sort_by: &Option<String>) -> (r: SortColumn)
    ensures
        r == sort_column_spec(*sort_by),
{
    match sort_by {
        Some(s) => if same_text(s, "car_value") {
            SortColumn::CarValue
        } else if same_text(s, "status") {
            SortColumn::Status
        } else {
            SortColumn::OrderTime
        },
        None => SortColumn::OrderTime,
    }
}

/// Whether `sort_order` asks for descending order ("DESC" or "desc").
pub fn is_descending(sort_order: &Option<String>) -> (r: bool)
    ensures
        r == (sort_order matches Some(s) && (s@ == "DESC"@ || s@ == "desc"@)),
{
    match sort_order {
        Some(s) => same_text(s, "DESC") || same_text(s, "desc"),
        None => false,
    }
}

/// Page `page` of `page_size` orders, sorted as asked: it skips
/// `page * page_size` rows.
pub fn order_listing(
    page: i32,
    page_size: i32,
    sort_by: &Option<String>,
    sort_order: &Option<String>,
) -> (r: OrderListing)
    ensures
        r.column == sort_column_spec(*sort_by),
        r.descending == (sort_order matches Some(s) && (s@ == "DESC"@ || s@ == "desc"@)),
        r.limit == page_size,
        r.offset == page * page_size,
{
    proof {
        assert(-2147483648 * 2147483647 <= (page as int) * (page_size as int) <= 2147483648 * 2147483648)
            by (nonlinear_arith)
            requires
                -2147483648 <= page <= 2147483647,
                -2147483648 <= page_size <= 2147483647,
        ;
    }
    let offset: i64 = (page as i64) * (page_size as i64);
    OrderListing {
        column: sort_column(sort_by),
        descending: is_descending(sort_order),
        limit: page_size as i64,
        offset,
    }
}

/// The column [`sort_column`] picks for `sort_by`.
pub open spec fn sort_column_spec(sort_by: Option<String>) -> SortColumn {
    match sort_by {
        Some(s) => if s@ == "car_value"@ {
            SortColumn::CarValue
        } else if s@ == "status"@ {
            SortColumn::Status
        } else {
            SortColumn::OrderTime
        },
        None => SortColumn::OrderTime,
    }
}

/// The (limit, offset) of page `page` of a truck listing; none, meaning
/// every row, when `page_size` is -1.
pub fn truck_page_window(page: i32, page_size: i32) -> (r: Option<(i64, i64)>)
    ensures
        page_size == -1 ==> r is None,
        page_size != -1 ==> r == Some((page_size as i64, (page * page_size) as i64)),
{
    if page_size == -1 {
        None
    } else {
        proof {
            assert(-2147483648 * 2147483647 <= (page as int) * (page_size as int) <= 2147483648
                * 2147483648) by (nonlinear_arith)
                requires
                    -2147483648 <= page <= 2147483647,
                    -2147483648 <= page_size <= 2147483647,
            ;
        }
        Some((page_size as i64, (page as i64) * (page_size as i64)))
    }
}

} // verus!
