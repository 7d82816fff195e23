use vstd::prelude::*;
use crate::error::OrderError;
use crate::order::{Order, OrderView};
use crate::repository::{
    cooking_at, cooking_time_drawn, find_order, lemma_found_carries_id, placed, remaining, same_orders,
    well_formed, without_id, Repository,
};
use crate::clock::{now_millis, MAX_TIMESTAMP_MILLIS};

verus! {

/// What `str::trim` leaves of a text.
pub uninterp spec fn trim_of(s: Seq<char>) -> Seq<char>;

/// Relies on `str::trim`: the text without its leading and trailing white
/// space, which depends on the characters alone.
#[verifier::external_body]
fn trim(s: &str) -> (r: &str)
    ensures
        r@ == trim_of(s@),
        s@.len() == 0 ==> r@.len() == 0,
{
    s.trim()
}

/// The reason an order with these fields is refused, checked in this order:
/// the table number, the menu item once trimmed, the quantity.
pub open spec fn rejection(table_number: i32, trimmed_item: Seq<char>, quantity: u8) -> Option<
    Seq<char>,
> {
    if table_number <= 0 {
        Some("Invalid table number"@)
    } else if trimmed_item.len() == 0 {
        Some("Menu item cannot be empty"@)
    } else if quantity == 0 {
        Some("Quantity must be greater than 0"@)
    } else {
        None
    }
}

/// `r` is what validation answers for the given reason to refuse, if any.
pub open spec fn validation_outcome(r: Result<(), OrderError>, reason: Option<Seq<char>>) -> bool {
    match reason {
        Some(msg) => r is Err && r->Err_0 is ValidationFailed && r->Err_0->ValidationFailed_0@
            == msg,
        None => r is Ok,
    }
}

/// Checks an order's fields, the menu item already trimmed.
pub fn validate_trimmed(table_number: i32, trimmed_item: &str, quantity: u8) -> (r: Result<
    (),
    OrderError,
>)
    ensures
        validation_outcome(r, rejection(table_number, trimmed_item@, quantity)),
{
    if table_number <= 0 {
        return Err(OrderError::ValidationFailed("Invalid table number".to_owned()));
    }
    if trimmed_item.is_empty() {
        return Err(OrderError::ValidationFailed("Menu item cannot be empty".to_owned()));
    }
    if quantity == 0 {
        return Err(OrderError::ValidationFailed("Quantity must be greater than 0".to_owned()));
    }
    Ok(())
}

/// Checks an order's fields as a caller supplied them.
pub fn validate(table_number: i32, menu_item: &str, quantity: u8) -> (r: Result<(), OrderError>)
    ensures
        validation_outcome(r, rejection(table_number, trim_of(menu_item@), quantity)),
{
    validate_trimmed(table_number, trim(menu_item), quantity)
}

/// The views are the projections of the orders, one for one, as seen at `now`.
pub open spec fn views_of(vs: Seq<OrderView>, os: Seq<Order>, now: i64) -> bool {
    &&& vs.len() == os.len()
    &&& forall|k: int| 0 <= k < vs.len() ==> #[trigger] vs[k].of(os[k], now)
}

/// `v` is the view of `o` seen at `now`, a time the clock can give.
pub open spec fn seen_at(v: OrderView, o: Order, now: i64) -> bool {
    &&& -MAX_TIMESTAMP_MILLIS <= now <= MAX_TIMESTAMP_MILLIS
    &&& v.of(o, now)
}

/// The entry point of the order board: validates requests before they reach
/// the repository it owns, and projects stored orders into views. Callers that
/// share one service across threads guard it with a single exclusive lock, so
/// each operation sees the others either completely or not at all.
pub struct OrderService<R: Repository> {
    repository: R,
}

impl<R: Repository> OrderService<R> {
    /// The stored orders, in the order they were placed.
    pub closed spec fn orders(&self) -> Seq<Order> {
        self.repository.orders()
    }

    /// The last identifier handed out; zero before the first.
    pub closed spec fn last_id(&self) -> nat {
        self.repository.last_id()
    }

    /// The repository is well-formed (see `well_formed`).
    pub open spec fn wf(&self) -> bool {
        well_formed(self.orders(), self.last_id())
    }

    pub fn new(repository: R) -> (r: OrderService<R>)
        requires
            well_formed(repository.orders(), repository.last_id()),
        ensures
            r.wf(),
            r.orders() == repository.orders(),
            r.last_id() == repository.last_id(),
    {
        OrderService { repository }
    }

    /// Places an order after validating its fields. Invalid fields are refused
    /// with the reason of the first rule broken, and the store is not touched.
    /// Valid fields are stored under the next identifier, created now with a
    /// drawn cooking time; only a store whose identifiers are used up refuses
    /// them, changing nothing.
    pub fn add_order(&mut self, table_number: i32, menu_item: String, quantity: u8) -> (r: Result<
        (),
        OrderError,
    >)
        requires
            old(self).wf(),
        ensures
            final(self).wf(),
            rejection(table_number, trim_of(menu_item@), quantity) is Some ==> {
                &&& validation_outcome(r, rejection(table_number, trim_of(menu_item@), quantity))
                &&& final(self).orders() == old(self).orders()
                &&& final(self).last_id() == old(self).last_id()
            },
            rejection(table_number, trim_of(menu_item@), quantity) is None && old(self).last_id()
                < usize::MAX ==> {
                &&& r is Ok
                &&& final(self).last_id() == old(self).last_id() + 1
                &&& final(self).orders() == old(self).orders().push(final(self).orders().last())
                &&& placed(
                    final(self).orders().last(),
                    final(self).last_id() as int,
                    table_number,
                    menu_item@,
                    quantity,
                )
                &&& cooking_time_drawn(final(self).orders().last())
                &&& -MAX_TIMESTAMP_MILLIS <= final(self).orders().last().created_at
                    <= MAX_TIMESTAMP_MILLIS
            },
            rejection(table_number, trim_of(menu_item@), quantity) is None && old(self).last_id()
                >= usize::MAX ==> {
                &&& r matches Err(OrderError::DatabaseError(_))
                &&& final(self).orders() == old(self).orders()
                &&& final(self).last_id() == old(self).last_id()
            },
    {
        match validate(table_number, menu_item.as_str(), quantity) {
            Ok(()) => {},
            Err(e) => return Err(e),
        }
        self.repository.add(table_number, menu_item, quantity)
    }

    /// Deletes every order with this identifier; an unknown identifier is no
    /// error.
    pub fn remove_order(&mut self, order_id: usize) -> (r: Result<(), OrderError>)
        requires
            old(self).wf(),
        ensures
            r is Ok,
            final(self).wf(),
            final(self).last_id() == old(self).last_id(),
            same_orders(final(self).orders(), without_id(old(self).orders(), order_id)),
    {
        self.repository.remove(order_id)
    }

    /// The views of the orders of a table that are still cooking now, in the
    /// order they were placed, each seen at that same moment. A table without
    /// orders gives an empty sequence.
    pub fn get_remaining_orders_by_table_number(&self, table_number: i32) -> (r: Result<
        Vec<OrderView>,
        OrderError,
    >)
        ensures
            r is Ok,
            exists|now: i64|
                -MAX_TIMESTAMP_MILLIS <= now <= MAX_TIMESTAMP_MILLIS && views_of(
                    r->Ok_0@,
                    remaining(self.orders(), table_number, now),
                    now,
                ),
            forall|k: int|
                0 <= k < r->Ok_0@.len() ==> #[trigger] r->Ok_0@[k].table_number == table_number
                    && r->Ok_0@[k].time_to_cook >= 0,
    {
        let now = now_millis();
        let orders = self.repository.remaining_at(table_number, now);
        let ghost rem = remaining(self.orders(), table_number, now);
        let mut views: Vec<OrderView> = Vec::new();
        let mut i: usize = 0;
        while i < orders.len()
            invariant
                0 <= i <= orders@.len(),
                same_orders(orders@, rem),
                views@.len() == i,
                forall|k: int| 0 <= k < i ==> #[trigger] views@[k].of(rem[k], now),
            decreases orders@.len() - i,
        {
            let v = OrderView::from_order_at(&orders[i], now);
            proof {
                assert(orders@[i as int].same_as(rem[i as int]));
            }
            views.push(v);
            i = i + 1;
        }
        proof {
            assert(views_of(views@, rem, now));
            self.orders().filter_lemma(cooking_at(table_number, now));
            assert forall|k: int| 0 <= k < views@.len() implies #[trigger] views@[k].table_number
                == table_number && views@[k].time_to_cook >= 0 by {
                assert(views@[k].of(rem[k], now));
                assert(cooking_at(table_number, now)(rem[k]));
            }
        }
        Ok(views)
    }

    /// The view, seen now, of the order with this identifier; `NotFound` when
    /// no order carries it.
    pub fn get_order(&self, order_id: usize) -> (r: Result<OrderView, OrderError>)
        ensures
            find_order(self.orders(), order_id) is None <==> r == Err::<OrderView, OrderError>(
                OrderError::NotFound,
            ),
            find_order(self.orders(), order_id) is Some ==> r is Ok,
            find_order(self.orders(), order_id) is Some ==> exists|now: i64|
                #[trigger] seen_at(r->Ok_0, find_order(self.orders(), order_id)->Some_0, now),
            r is Ok ==> r->Ok_0.id == order_id && r->Ok_0.time_to_cook >= 0,
    {
        let found = self.repository.get(order_id);
        proof {
            lemma_found_carries_id(self.orders(), order_id);
        }
        match found {
            Ok(order) => {
                let now = now_millis();
                let v = OrderView::from_order_at(&order, now);
                let res: Result<OrderView, OrderError> = Ok(v);
                proof {
                    let found_order = find_order(self.orders(), order_id)->Some_0;
                    assert(res->Ok_0 == v);
                    assert(seen_at(res->Ok_0, found_order, now));
                }
                res
            },
            Err(e) => Err(e),
        }
    }
}

} // verus!
