use vstd::prelude::*;
use crate::clock::MAX_TIMESTAMP_MILLIS;

verus! {

/// Milliseconds in one minute.
pub const MINUTE_MILLIS: i64 = 60_000;

/// One placed order. Times are milliseconds since the Unix epoch, in UTC.
#[derive(Debug, Clone)]
pub struct Order {
    pub id: usize,
    pub table_number: i32,
    pub menu_item: String,
    pub quantity: u8,
    pub created_at: i64,
    pub finished_at: i64,
}

/// Whole minutes left until `finished_at`, seen at `now`; zero once it has passed.
pub open spec fn minutes_left(finished_at: i64, now: i64) -> int {
    if finished_at > now {
        (finished_at - now) / (MINUTE_MILLIS as int)
    } else {
        0
    }
}

impl Order {
    pub fn new(
        id: usize,
        table_number: i32,
        menu_item: String,
        quantity: u8,
        created_at: i64,
        finished_at: i64,
    ) -> (r: Order)
        ensures
            r.id == id,
            r.table_number == table_number,
            r.menu_item@ == menu_item@,
            r.quantity == quantity,
            r.created_at == created_at,
            r.finished_at == finished_at,
    {
        Order { id, table_number, menu_item, quantity, created_at, finished_at }
    }

    /// The two orders agree on every field.
    pub open spec fn same_as(self, other: Order) -> bool {
        &&& self.id == other.id
        &&& self.table_number == other.table_number
        &&& self.menu_item@ == other.menu_item@
        &&& self.quantity == other.quantity
        &&& self.created_at == other.created_at
        &&& self.finished_at == other.finished_at
    }

    /// A copy of this order that agrees with it on every field.
    pub fn duplicate(&self) -> (r: Order)
        ensures
            r.same_as(*self),
    {
        Order {
            id: self.id,
            table_number: self.table_number,
            menu_item: self.menu_item.clone(),
            quantity: self.quantity,
            created_at: self.created_at,
            finished_at: self.finished_at,
        }
    }
}

/// What callers are shown of an order: its fields without the timestamps,
/// and the whole minutes of cooking left at the time it was made.
#[derive(Debug, Clone)]
pub struct OrderView {
    pub id: usize,
    pub table_number: i32,
    pub menu_item: String,
    pub quantity: u8,
    pub time_to_cook: i64,
}

impl OrderView {
    /// The projection of `order` as seen at time `now`.
    pub open spec fn of(self, order: Order, now: i64) -> bool {
        &&& self.id == order.id
        &&& self.table_number == order.table_number
        &&& self.menu_item@ == order.menu_item@
        &&& self.quantity == order.quantity
        &&& self.time_to_cook == minutes_left(order.finished_at, now)
    }

    /// Projects `order` as seen at time `now`.
    pub fn from_order_at(order: &Order, now: i64) -> (r: OrderView)
        ensures
            r.of(*order, now),
            r.time_to_cook >= 0,
    {
        let time_to_cook: i64 = if order.finished_at > now {
            let left: i128 = order.finished_at as i128 - now as i128;
            (left / (MINUTE_MILLIS as i128)) as i64
        } else {
            0
        };
        OrderView {
            id: order.id,
            table_number: order.table_number,
            menu_item: order.menu_item.clone(),
            quantity: order.quantity,
            time_to_cook,
        }
    }

    /// Projects `order` as seen now.
    pub fn from_order(order: &Order) -> (r: OrderView)
        ensures
            exists|now: i64|
                -MAX_TIMESTAMP_MILLIS <= now <= MAX_TIMESTAMP_MILLIS && r.of(*order, now),
            r.time_to_cook >= 0,
    {
        let now = crate::clock::now_millis();
        OrderView::from_order_at(order, now)
    }
}

/// The fields of a request to place an order, as decoded by the transport layer.
#[derive(Debug, Clone)]
pub struct AddOrderRequest {
    pub table_number: i32,
    pub menu_item: String,
    pub quantity: u8,
}

} // verus!
