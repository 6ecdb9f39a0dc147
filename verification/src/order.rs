//! Orders and tables. A table owns an insertion-ordered sequence of orders;
//! an order is immutable once created and is identified by its id.

use vstd::prelude::*;
use crate::timefmt;

verus! {

/// One order line. `order_time` is milliseconds since the Unix epoch,
/// `cooking_time` is whole seconds. Identity is `id`.
#[derive(Clone, Copy, PartialEq, Eq, Structural, Debug)]
pub struct OrderItem {
    pub id: u64,
    pub table_number: u64,
    pub menu_reference: u64,
    pub order_time: u64,
    pub cooking_time: u64,
}

impl OrderItem {
    /// Creates an order stamped with the current time. The id is handed in
    /// by the store, which owns the process-wide counter.
    pub fn new(id: u64, table_number: u64, menu_reference: u64, cooking_time: u64) -> (o:
        OrderItem)
        ensures
            o.id == id,
            o.table_number == table_number,
            o.menu_reference == menu_reference,
            o.cooking_time == cooking_time,
    {
        OrderItem {
            id,
            table_number,
            menu_reference,
            order_time: timefmt::now_millis(),
            cooking_time,
        }
    }
}

/// The index of the first order with `id`, or -1 when none has it.
pub open spec fn find_order(orders: Seq<OrderItem>, id: u64) -> int
    decreases orders.len(),
{
    if orders.len() == 0 {
        -1
    } else if orders[0].id == id {
        0
    } else {
        let r = find_order(orders.subrange(1, orders.len() as int), id);
        if r == -1 {
            -1
        } else {
            r + 1
        }
    }
}

pub open spec fn has_order(orders: Seq<OrderItem>, id: u64) -> bool {
    exists|i: int| 0 <= i < orders.len() && (#[trigger] orders[i]).id == id
}

/// `find_order` finds the first index holding `id`, and a valid index
/// exactly when some order has `id`.
pub proof fn lemma_find_order(orders: Seq<OrderItem>, id: u64)
    ensures
        has_order(orders, id) <==> 0 <= find_order(orders, id) < orders.len(),
        !has_order(orders, id) ==> find_order(orders, id) == -1,
        has_order(orders, id) ==> (#[trigger] orders[find_order(orders, id)]).id == id,
        has_order(orders, id) ==> forall|j: int|
            0 <= j < find_order(orders, id) ==> (#[trigger] orders[j]).id != id,
    decreases orders.len(),
{
    if orders.len() == 0 {
    } else if orders[0].id == id {
    } else {
        let rest = orders.subrange(1, orders.len() as int);
        lemma_find_order(rest, id);
        assert(forall|i: int| 0 <= i < rest.len() ==> rest[i] == orders[i + 1]);
        if has_order(rest, id) {
            let i = choose|i: int| 0 <= i < rest.len() && (#[trigger] rest[i]).id == id;
            assert(orders[i + 1].id == id);
        }
        if has_order(orders, id) {
            let i = choose|i: int| 0 <= i < orders.len() && (#[trigger] orders[i]).id == id;
            assert(i >= 1);
            assert(rest[i - 1].id == id);
            assert forall|j: int| 0 <= j < find_order(orders, id) implies (#[trigger] orders[j]).id
                != id by {
                if j >= 1 {
                    assert(orders[j] == rest[j - 1]);
                    assert(j - 1 < find_order(rest, id));
                }
            }
        }
    }
}

/// A table: a fixed number and the orders placed at it, oldest first.
pub struct Table {
    pub table_number: u64,
    pub orders: Vec<OrderItem>,
}

impl Table {
    pub fn new(table_number: u64) -> (t: Table)
        ensures
            t.table_number == table_number,
            t.orders@ == Seq::<OrderItem>::empty(),
    {
        Table { table_number, orders: Vec::new() }
    }

    /// Appends at the tail, keeping insertion order.
    pub fn add_order(&mut self, order: OrderItem)
        ensures
            final(self).table_number == old(self).table_number,
            final(self).orders@ == old(self).orders@.push(order),
    {
        self.orders.push(order);
    }

    /// Removes the first (and, under the store's invariant, only) order with
    /// the id, keeping the remainder in order; reports whether one was there.
    pub fn delete_order(&mut self, order_item_id: u64) -> (found: bool)
        ensures
            final(self).table_number == old(self).table_number,
            found == has_order(old(self).orders@, order_item_id),
            found ==> final(self).orders@ == old(self).orders@.remove(
                find_order(old(self).orders@, order_item_id),
            ),
            !found ==> final(self).orders@ == old(self).orders@,
    {
        let n = self.orders.len();
        let mut i: usize = 0;
        while i < n
            invariant
                i <= n,
                n == self.orders.len(),
                *self == *old(self),
                forall|j: int| 0 <= j < i ==> (#[trigger] self.orders@[j]).id != order_item_id,
            decreases n - i,
        {
            if self.orders[i].id == order_item_id {
                proof {
                    lemma_find_order(self.orders@, order_item_id);
                    assert(self.orders@[i as int].id == order_item_id);
                    assert(has_order(self.orders@, order_item_id));
                    let f = find_order(self.orders@, order_item_id);
                    if f < i {
                        assert((#[trigger] self.orders@[f]).id != order_item_id);
                    }
                    if f > i {
                        assert(self.orders@[i as int].id != order_item_id);
                    }
                }
                self.orders.remove(i);
                return true;
            }
            i += 1;
        }
        false
    }

    /// Finds the first order with the id, as a copy.
    pub fn get_order(&self, order_item_id: u64) -> (r: Option<OrderItem>)
        ensures
            match r {
                Some(o) => has_order(self.orders@, order_item_id) && o == self.orders@[
                    find_order(self.orders@, order_item_id)
                ],
                None => !has_order(self.orders@, order_item_id),
            },
    {
        let n = self.orders.len();
        let mut i: usize = 0;
        while i < n
            invariant
                i <= n,
                n == self.orders.len(),
                forall|j: int| 0 <= j < i ==> (#[trigger] self.orders@[j]).id != order_item_id,
            decreases n - i,
        {
            if self.orders[i].id == order_item_id {
                proof {
                    lemma_find_order(self.orders@, order_item_id);
                    assert(self.orders@[i as int].id == order_item_id);
                    assert(has_order(self.orders@, order_item_id));
                    let f = find_order(self.orders@, order_item_id);
                    if f < i {
                        assert((#[trigger] self.orders@[f]).id != order_item_id);
                    }
                    if f > i {
                        assert(self.orders@[i as int].id != order_item_id);
                    }
                }
                return Some(self.orders[i]);
            }
            i += 1;
        }
        None
    }
}

} // verus!
