use vstd::prelude::*;
use crate::clock::{now_millis, random_between, MAX_TIMESTAMP_MILLIS};
use crate::error::OrderError;
use crate::order::{Order, MINUTE_MILLIS};

verus! {

/// The shortest cooking time an order can be given, in minutes.
pub const MIN_COOKING_MINUTES: u32 = 5;

/// The longest cooking time an order can be given, in minutes.
pub const MAX_COOKING_MINUTES: u32 = 15;

/// The two sequences hold orders that agree field by field, in the same order.
pub open spec fn same_orders(a: Seq<Order>, b: Seq<Order>) -> bool {
    &&& a.len() == b.len()
    &&& forall|k: int| 0 <= k < a.len() ==> #[trigger] a[k].same_as(b[k])
}

/// Identifiers strictly increase along the sequence (so none repeats).
pub open spec fn ids_ascending(s: Seq<Order>) -> bool {
    forall|i: int, j: int| 0 <= i < j < s.len() ==> s[i].id < s[j].id
}

/// The first order in `s` that carries `id`, if any.
pub open spec fn find_order(s: Seq<Order>, id: usize) -> Option<Order>
    decreases s.len(),
{
    if s.len() == 0 {
        None
    } else if s[0].id == id {
        Some(s[0])
    } else {
        find_order(s.drop_first(), id)
    }
}

/// Holds of the orders that do not carry `id`.
pub open spec fn keeps(id: usize) -> spec_fn(Order) -> bool {
    |o: Order| o.id != id
}

/// Holds of the orders of `table_number` that are still cooking at `now`.
pub open spec fn cooking_at(table_number: i32, now: i64) -> spec_fn(Order) -> bool {
    |o: Order| o.table_number == table_number && o.finished_at > now
}

/// The orders of `s` but those that carry `id`, in their order.
pub open spec fn without_id(s: Seq<Order>, id: usize) -> Seq<Order> {
    s.filter(keeps(id))
}

/// The orders of `s` for `table_number` whose cooking ends after `now`, in their order.
pub open spec fn remaining(s: Seq<Order>, table_number: i32, now: i64) -> Seq<Order> {
    s.filter(cooking_at(table_number, now))
}

/// `o` is the order placed with identifier `id` and these caller-supplied fields.
pub open spec fn placed(o: Order, id: int, table_number: i32, menu_item: Seq<char>, quantity: u8) -> bool {
    &&& o.id == id
    &&& o.table_number == table_number
    &&& o.menu_item@ == menu_item
    &&& o.quantity == quantity
}

/// The order's cooking time is a whole number of minutes between the shortest
/// and the longest.
pub open spec fn cooking_time_drawn(o: Order) -> bool {
    let span = o.finished_at - o.created_at;
    &&& MIN_COOKING_MINUTES * MINUTE_MILLIS <= span <= MAX_COOKING_MINUTES * MINUTE_MILLIS
    &&& span % (MINUTE_MILLIS as int) == 0
}

/// Taking one more element of `s` extends its filtered prefix by that element
/// exactly when the predicate holds of it.
proof fn lemma_filter_take(s: Seq<Order>, p: spec_fn(Order) -> bool, i: int)
    requires
        0 <= i < s.len(),
    ensures
        s.take(i + 1).filter(p) == (if p(s[i]) {
            s.take(i).filter(p).push(s[i])
        } else {
            s.take(i).filter(p)
        }),
{
    reveal_with_fuel(Seq::filter, 1);
    assert(s.take(i + 1).drop_last() =~= s.take(i));
    assert(s.take(i + 1).last() == s[i]);
}

/// The counter fits its machine integer, identifiers strictly increase in
/// storage order and lie between 1 and the last one handed out, and every
/// order finishes after it was created.
pub open spec fn well_formed(orders: Seq<Order>, last_id: nat) -> bool {
    &&& last_id <= usize::MAX
    &&& ids_ascending(orders)
    &&& forall|k: int| 0 <= k < orders.len() ==> 1 <= #[trigger] orders[k].id <= last_id
    &&& forall|k: int|
        0 <= k < orders.len() ==> #[trigger] orders[k].created_at < orders[k].finished_at
}

/// A store of orders: what the service needs of one. Each operation states
/// its effect on the stored orders, in the order they were placed, and on the
/// last identifier handed out.
pub trait Repository: Sized {
    /// The stored orders, in the order they were placed.
    spec fn orders(&self) -> Seq<Order>;

    /// The last identifier handed out; zero before the first.
    spec fn last_id(&self) -> nat;

    /// Stores a new order with the next identifier, created now and finishing
    /// after a cooking time drawn at random between the shortest and the
    /// longest, in whole minutes; fails, changing nothing, once every
    /// identifier has been used.
    fn add(&mut self, table_number: i32, menu_item: String, quantity: u8) -> (r: Result<
        (),
        OrderError,
    >)
        requires
            well_formed(old(self).orders(), old(self).last_id()),
        ensures
            well_formed(final(self).orders(), final(self).last_id()),
            old(self).last_id() < usize::MAX ==> {
                &&& r is Ok
                &&& final(self).last_id() == old(self).last_id() + 1
                &&& final(self).orders() == old(self).orders().push(final(self).orders().last())
                &&& placed(
                    final(self).orders().last(),
                    final(self).last_id() as int,
                    table_number,
                    menu_item@,
                    quantity,
                )
                &&& cooking_time_drawn(final(self).orders().last())
                &&& -MAX_TIMESTAMP_MILLIS <= final(self).orders().last().created_at
                    <= MAX_TIMESTAMP_MILLIS
            },
            old(self).last_id() == usize::MAX ==> {
                &&& r matches Err(OrderError::DatabaseError(_))
                &&& final(self).orders() == old(self).orders()
                &&& final(self).last_id() == old(self).last_id()
            },
    ;

    /// Deletes every order that carries `order_id`; an identifier that no
    /// order carries is no error.
    fn remove(&mut self, order_id: usize) -> (r: Result<(), OrderError>)
        requires
            well_formed(old(self).orders(), old(self).last_id()),
        ensures
            r is Ok,
            well_formed(final(self).orders(), final(self).last_id()),
            final(self).last_id() == old(self).last_id(),
            same_orders(final(self).orders(), without_id(old(self).orders(), order_id)),
    ;

    /// The order that carries `order_id`, as a copy.
    fn get(&self, order_id: usize) -> (r: Result<Order, OrderError>)
        ensures
            find_order(self.orders(), order_id) is Some ==> r is Ok && r->Ok_0.same_as(
                find_order(self.orders(), order_id)->Some_0,
            ),
            find_order(self.orders(), order_id) is None ==> r == Err::<Order, OrderError>(
                OrderError::NotFound,
            ),
    ;

    /// The orders of `table_number` still cooking at `now`, as copies, in the
    /// order they were placed.
    fn remaining_at(&self, table_number: i32, now: i64) -> (r: Vec<Order>)
        ensures
            same_orders(r@, remaining(self.orders(), table_number, now)),
    ;

    /// The orders of `table_number` still cooking now, as copies, in the order
    /// they were placed. A table without orders gives an empty sequence.
    fn get_remaining_by_table_number(&self, table_number: i32) -> (r: Result<
        Vec<Order>,
        OrderError,
    >)
        ensures
            r is Ok,
            exists|now: i64|
                -MAX_TIMESTAMP_MILLIS <= now <= MAX_TIMESTAMP_MILLIS && same_orders(
                    r->Ok_0@,
                    remaining(self.orders(), table_number, now),
                ),
    ;
}

/// The identifiers in use in `s`.
pub open spec fn order_ids(s: Seq<Order>) -> Set<usize> {
    s.map_values(|o: Order| o.id).to_set()
}

/// `find_order` finds nothing exactly when no order carries the identifier.
proof fn lemma_find_none(s: Seq<Order>, id: usize)
    ensures
        find_order(s, id) is None <==> forall|k: int| 0 <= k < s.len() ==> s[k].id != id,
    decreases s.len(),
{
    if s.len() > 0 {
        lemma_find_none(s.drop_first(), id);
        assert forall|k: int| 0 < k < s.len() implies s[k].id == s.drop_first()[k - 1].id by {}
    }
}

/// What `find_order` finds carries the identifier looked up and is one of the
/// orders searched.
pub proof fn lemma_found_carries_id(s: Seq<Order>, id: usize)
    ensures
        find_order(s, id) is Some ==> find_order(s, id)->Some_0.id == id && s.contains(
            find_order(s, id)->Some_0,
        ),
    decreases s.len(),
{
    if s.len() > 0 && s[0].id != id {
        lemma_found_carries_id(s.drop_first(), id);
        if find_order(s, id) is Some {
            let k = choose|k: int|
                0 <= k < s.drop_first().len() && s.drop_first()[k] == find_order(s, id)->Some_0;
            assert(s[k + 1] == s.drop_first()[k]);
        }
    }
}

/// Filtering by a predicate that every element meets keeps the sequence whole.
proof fn lemma_filter_all(s: Seq<Order>, p: spec_fn(Order) -> bool)
    requires
        forall|k: int| 0 <= k < s.len() ==> p(#[trigger] s[k]),
    ensures
        s.filter(p) == s,
    decreases s.len(),
{
    reveal_with_fuel(Seq::filter, 1);
    if s.len() > 0 {
        lemma_filter_all(s.drop_last(), p);
        assert(s.drop_last().push(s.last()) =~= s);
    }
}

/// Identifiers are unique among the stored orders: no two orders share one,
/// and there are exactly as many identifiers in use as orders. Since each
/// successful `add` stores exactly one order, a board filled only by adds holds
/// as many distinct identifiers as adds succeeded.
pub proof fn lemma_ids_unique<R: Repository>(repo: R)
    requires
        well_formed(repo.orders(), repo.last_id()),
    ensures
        forall|i: int, j: int|
            0 <= i < repo.orders().len() && 0 <= j < repo.orders().len() && i != j
                ==> repo.orders()[i].id != repo.orders()[j].id,
        order_ids(repo.orders()).len() == repo.orders().len(),
{
    let s = repo.orders();
    let ids = s.map_values(|o: Order| o.id);
    assert forall|i: int, j: int| 0 <= i < ids.len() && 0 <= j < ids.len() && i != j implies ids[i]
        != ids[j] by {
        if i < j {
            assert(s[i].id < s[j].id);
        } else {
            assert(s[j].id < s[i].id);
        }
    }
    assert(ids.no_duplicates());
    ids.unique_seq_to_set();
}

/// Identifiers grow with each add: the order that a successful `add` places
/// carries one more than the last identifier handed out before, which is
/// above every identifier already stored, so identifiers stay strictly
/// increasing in the order the adds completed (starting at 1 on a new board).
pub proof fn lemma_ids_increase<R: Repository>(before: R, after: R)
    requires
        well_formed(before.orders(), before.last_id()),
        after.last_id() == before.last_id() + 1,
        after.orders() == before.orders().push(after.orders().last()),
        after.orders().last().id == after.last_id(),
    ensures
        after.orders().last().id == before.last_id() + 1,
        forall|k: int|
            0 <= k < before.orders().len() ==> before.orders()[k].id < after.orders().last().id,
        ids_ascending(after.orders()),
{
    let s = after.orders();
    assert forall|i: int, j: int| 0 <= i < j < s.len() implies s[i].id < s[j].id by {
        assert(s[i] == before.orders()[i]);
        if j < before.orders().len() {
            assert(s[j] == before.orders()[j]);
        }
    }
}

/// After an order is stored under an identifier above all those in use,
/// looking that identifier up gives back that very order.
pub proof fn lemma_round_trip(s: Seq<Order>, o: Order)
    requires
        forall|k: int| 0 <= k < s.len() ==> s[k].id < o.id,
    ensures
        find_order(s.push(o), o.id) == Some(o),
    decreases s.len(),
{
    if s.len() > 0 {
        assert(s.push(o).drop_first() =~= s.drop_first().push(o));
        lemma_round_trip(s.drop_first(), o);
    }
}

/// What `add` stores, `get` returns: after a successful add on a well-formed
/// board, the order under the new last identifier is the one just placed.
pub proof fn lemma_add_then_get<R: Repository>(
    before: R,
    after: R,
    table_number: i32,
    menu_item: Seq<char>,
    quantity: u8,
)
    requires
        well_formed(before.orders(), before.last_id()),
        after.last_id() == before.last_id() + 1,
        after.orders() == before.orders().push(after.orders().last()),
        placed(after.orders().last(), after.last_id() as int, table_number, menu_item, quantity),
    ensures
        find_order(after.orders(), after.last_id() as usize) is Some,
        placed(
            find_order(after.orders(), after.last_id() as usize)->Some_0,
            after.last_id() as int,
            table_number,
            menu_item,
            quantity,
        ),
{
    lemma_round_trip(before.orders(), after.orders().last());
}

/// Removing an identifier twice leaves the same orders as removing it once,
/// and afterwards no order carries it.
pub proof fn lemma_remove_idempotent(s0: Seq<Order>, s1: Seq<Order>, s2: Seq<Order>, id: usize)
    requires
        same_orders(s1, without_id(s0, id)),
        same_orders(s2, without_id(s1, id)),
    ensures
        same_orders(s2, s1),
        find_order(s1, id) is None,
        find_order(s2, id) is None,
{
    s0.filter_lemma(keeps(id));
    assert forall|k: int| 0 <= k < s1.len() implies #[trigger] keeps(id)(s1[k]) by {
        assert(s1[k].same_as(without_id(s0, id)[k]));
    }
    lemma_filter_all(s1, keeps(id));
    lemma_find_none(s1, id);
    assert forall|k: int| 0 <= k < s2.len() implies s2[k].id != id by {
        assert(s2[k].same_as(s1[k]));
    }
    lemma_find_none(s2, id);
}

/// A stored order of a table is among the table's remaining orders at `now`
/// exactly when it finishes after `now`.
pub proof fn lemma_remaining_by_time(s: Seq<Order>, table_number: i32, now: i64, k: int)
    requires
        0 <= k < s.len(),
        s[k].table_number == table_number,
    ensures
        remaining(s, table_number, now).contains(s[k]) <==> s[k].finished_at > now,
{
    s.filter_lemma(cooking_at(table_number, now));
    if s[k].finished_at > now {
        s.lemma_filter_contains(cooking_at(table_number, now), k);
    }
}

/// A table without stored orders has no remaining orders, at any time.
pub proof fn lemma_unknown_table(s: Seq<Order>, table_number: i32, now: i64)
    requires
        forall|k: int| 0 <= k < s.len() ==> s[k].table_number != table_number,
    ensures
        remaining(s, table_number, now).len() == 0,
{
    s.filter_lemma(cooking_at(table_number, now));
    let r = remaining(s, table_number, now);
    if r.len() > 0 {
        assert(r.contains(r[0]));
        s.lemma_filter_contains_rev(cooking_at(table_number, now), r[0]);
        let k = choose|k: int| 0 <= k < s.len() && s[k] == r[0];
        assert(s[k].table_number != table_number);
    }
}

/// When every stored order belongs to the table and is still cooking at
/// `now`, all of them are remaining, in their order: a table that received
/// `n` orders, none finished yet, lists exactly `n`.
pub proof fn lemma_all_cooking_remain(s: Seq<Order>, table_number: i32, now: i64)
    requires
        forall|k: int|
            0 <= k < s.len() ==> #[trigger] s[k].table_number == table_number && s[k].finished_at
                > now,
    ensures
        remaining(s, table_number, now) == s,
{
    assert forall|k: int| 0 <= k < s.len() implies #[trigger] cooking_at(table_number, now)(s[k]) by {}
    lemma_filter_all(s, cooking_at(table_number, now));
}

/// The orders of the board, in the order they were placed, and the counter
/// that hands out their identifiers.
pub struct InMemoryRepository {
    orders: Vec<Order>,
    id_counter: usize,
}

impl InMemoryRepository {
    /// An empty board whose first order will get identifier 1.
    pub fn new() -> (r: InMemoryRepository)
        ensures
            well_formed(r.orders(), r.last_id()),
            r.orders().len() == 0,
            r.last_id() == 0,
    {
        InMemoryRepository { orders: Vec::new(), id_counter: 0 }
    }

    /// Hands out the identifier after the last one; fails, changing nothing,
    /// once every identifier has been used.
    pub fn generate_id(&mut self) -> (r: Result<usize, OrderError>)
        ensures
            final(self).orders() == old(self).orders(),
            old(self).last_id() < usize::MAX ==> r == Ok::<usize, OrderError>(
                (old(self).last_id() + 1) as usize,
            ) && final(self).last_id() == old(self).last_id() + 1,
            old(self).last_id() == usize::MAX ==> (r matches Err(OrderError::DatabaseError(_)))
                && final(self).last_id() == old(self).last_id(),
    {
        if self.id_counter == usize::MAX {
            return Err(OrderError::DatabaseError("Order identifiers exhausted".to_owned()));
        }
        self.id_counter = self.id_counter + 1;
        Ok(self.id_counter)
    }

    /// Stores a new order with the next identifier and the given times;
    /// fails, changing nothing, once every identifier has been used.
    pub fn add_at(
        &mut self,
        table_number: i32,
        menu_item: String,
        quantity: u8,
        created_at: i64,
        finished_at: i64,
    ) -> (r: Result<(), OrderError>)
        requires
            well_formed(old(self).orders(), old(self).last_id()),
            created_at < finished_at,
        ensures
            well_formed(final(self).orders(), final(self).last_id()),
            old(self).last_id() < usize::MAX ==> {
                &&& r is Ok
                &&& final(self).last_id() == old(self).last_id() + 1
                &&& final(self).orders() == old(self).orders().push(final(self).orders().last())
                &&& placed(
                    final(self).orders().last(),
                    final(self).last_id() as int,
                    table_number,
                    menu_item@,
                    quantity,
                )
                &&& final(self).orders().last().created_at == created_at
                &&& final(self).orders().last().finished_at == finished_at
            },
            old(self).last_id() == usize::MAX ==> {
                &&& r matches Err(OrderError::DatabaseError(_))
                &&& final(self).orders() == old(self).orders()
                &&& final(self).last_id() == old(self).last_id()
            },
    {
        let id = match self.generate_id() {
            Ok(id) => id,
            Err(e) => return Err(e),
        };
        let order = Order::new(id, table_number, menu_item, quantity, created_at, finished_at);
        let ghost before = self.orders@;
        self.orders.push(order);
        proof {
            let s = self.orders@;
            assert(s.last() == order);
            assert forall|k: int| 0 <= k < before.len() implies s[k] == before[k] by {}
            assert forall|i: int, j: int| 0 <= i < j < s.len() implies s[i].id < s[j].id by {
                if j == before.len() {
                    assert(before[i].id <= id - 1);
                }
            }
            assert forall|k: int| 0 <= k < s.len() implies 1 <= #[trigger] s[k].id <= id
                && s[k].created_at < s[k].finished_at by {
                if k < before.len() {
                    assert(s[k] == before[k]);
                }
            }
            assert(id as nat == self.last_id());
        }
        Ok(())
    }
}

impl Repository for InMemoryRepository {
    closed spec fn orders(&self) -> Seq<Order> {
        self.orders@
    }

    closed spec fn last_id(&self) -> nat {
        self.id_counter as nat
    }

    fn add(&mut self, table_number: i32, menu_item: String, quantity: u8) -> Result<(), OrderError> {
        let created_at = now_millis();
        let minutes = random_between(MIN_COOKING_MINUTES, MAX_COOKING_MINUTES);
        let finished_at = created_at + (minutes as i64) * MINUTE_MILLIS;
        self.add_at(table_number, menu_item, quantity, created_at, finished_at)
    }

    fn remove(&mut self, order_id: usize) -> Result<(), OrderError> {
        let ghost s = self.orders@;
        let mut kept: Vec<Order> = Vec::new();
        let mut i: usize = 0;
        while i < self.orders.len()
            invariant
                well_formed(self.orders(), self.last_id()),
                self.orders@ == s,
                0 <= i <= s.len(),
                same_orders(kept@, s.take(i as int).filter(keeps(order_id))),
                ids_ascending(kept@),
                forall|k: int| 0 <= k < kept@.len() ==> 1 <= #[trigger] kept@[k].id <= self.last_id(),
                forall|k: int|
                    0 <= k < kept@.len() ==> #[trigger] kept@[k].created_at < kept@[k].finished_at,
                forall|k: int, j: int|
                    0 <= k < kept@.len() && i <= j < s.len() ==> #[trigger] kept@[k].id
                        < #[trigger] s[j].id,
            decreases s.len() - i,
        {
            proof {
                lemma_filter_take(s, keeps(order_id), i as int);
                assert(self.orders() == s);
            }
            if self.orders[i].id != order_id {
                let o = self.orders[i].duplicate();
                kept.push(o);
            }
            i = i + 1;
        }
        proof {
            assert(s.take(s.len() as int) =~= s);
        }
        let ghost last = self.last_id();
        self.orders = kept;
        proof {
            assert(self.orders() == kept@);
            assert(self.last_id() == last);
        }
        Ok(())
    }

    fn get(&self, order_id: usize) -> Result<Order, OrderError> {
        let ghost s = self.orders@;
        let mut i: usize = 0;
        proof {
            assert(s.skip(0) =~= s);
        }
        while i < self.orders.len()
            invariant
                self.orders@ == s,
                0 <= i <= s.len(),
                find_order(s, order_id) == find_order(s.skip(i as int), order_id),
            decreases s.len() - i,
        {
            if self.orders[i].id == order_id {
                return Ok(self.orders[i].duplicate());
            }
            proof {
                assert(s.skip(i as int).drop_first() =~= s.skip(i as int + 1));
            }
            i = i + 1;
        }
        Err(OrderError::NotFound)
    }

    fn remaining_at(&self, table_number: i32, now: i64) -> Vec<Order> {
        let ghost s = self.orders@;
        let mut found: Vec<Order> = Vec::new();
        let mut i: usize = 0;
        while i < self.orders.len()
            invariant
                self.orders@ == s,
                0 <= i <= s.len(),
                same_orders(found@, s.take(i as int).filter(cooking_at(table_number, now))),
            decreases s.len() - i,
        {
            proof {
                lemma_filter_take(s, cooking_at(table_number, now), i as int);
            }
            if self.orders[i].table_number == table_number && self.orders[i].finished_at > now {
                let o = self.orders[i].duplicate();
                found.push(o);
            }
            i = i + 1;
        }
        proof {
            assert(s.take(s.len() as int) =~= s);
        }
        found
    }

    fn get_remaining_by_table_number(&self, table_number: i32) -> Result<Vec<Order>, OrderError> {
        let now = now_millis();
        Ok(self.remaining_at(table_number, now))
    }
}

} // verus!
