//! The order store: a fixed universe of tables, each holding orders, and a
//! process-wide counter handing out globally unique, strictly increasing
//! order ids. All four operations are all-or-nothing; callers that share a
//! store serialize the calls (one lock around the store suffices), and the
//! contracts here describe each operation as one atomic step.

use vstd::prelude::*;
use crate::order::{find_order, has_order, lemma_find_order, OrderItem, Table};

verus! {

/// Why a request was refused: a malformed numeric path segment, or a table
/// or order that is not there.
#[derive(Clone, Copy, PartialEq, Eq, Structural, Debug)]
pub enum ApiError {
    BadRequest,
    NotFound,
}

/// The mathematical state of a store: the orders of each table, oldest
/// first, and the next id the counter will hand out.
pub ghost struct StoreModel {
    pub tables: Seq<Seq<OrderItem>>,
    pub next_id: u64,
}

/// Every order sits in the table it names, every id is below the counter,
/// and no two orders share an id.
pub open spec fn store_wf(s: StoreModel) -> bool {
    &&& forall|t: int, i: int|
        0 <= t < s.tables.len() && 0 <= i < s.tables[t].len() ==> (#[trigger] s.tables[t][
            i
        ]).table_number == t && s.tables[t][i].id < s.next_id
    &&& forall|t1: int, i1: int, t2: int, i2: int|
        0 <= t1 < s.tables.len() && 0 <= i1 < s.tables[t1].len() && 0 <= t2 < s.tables.len() && 0
            <= i2 < s.tables[t2].len() && (t1 != t2 || i1 != i2) ==> (#[trigger] s.tables[t1][
            i1
        ]).id != (#[trigger] s.tables[t2][i2]).id
}

/// A fresh store: `table_count` empty tables, ids starting at zero.
pub open spec fn spec_new_store(table_count: nat) -> StoreModel {
    StoreModel { tables: Seq::new(table_count, |i: int| Seq::<OrderItem>::empty()), next_id: 0 }
}

/// The snapshot a listing returns, or `None` for a table outside the
/// universe.
pub open spec fn spec_list(s: StoreModel, table_id: u64) -> Option<Seq<OrderItem>> {
    if (table_id as int) < s.tables.len() {
        Some(s.tables[table_id as int])
    } else {
        None
    }
}

/// The order a lookup returns, or `None` when the table is outside the
/// universe or no live order there has the id.
pub open spec fn spec_get(s: StoreModel, table_id: u64, order_id: u64) -> Option<OrderItem> {
    if (table_id as int) < s.tables.len() && has_order(s.tables[table_id as int], order_id) {
        Some(s.tables[table_id as int][find_order(s.tables[table_id as int], order_id)])
    } else {
        None
    }
}

/// One add: the created order takes the counter's value as id and is
/// appended at the tail of its table.
pub open spec fn spec_add(
    s: StoreModel,
    table_id: u64,
    menu_reference: u64,
    order_time: u64,
    cooking_time: u64,
) -> (StoreModel, OrderItem) {
    let o = OrderItem {
        id: s.next_id,
        table_number: table_id,
        menu_reference: menu_reference,
        order_time: order_time,
        cooking_time: cooking_time,
    };
    (
        StoreModel {
            tables: s.tables.update(table_id as int, s.tables[table_id as int].push(o)),
            next_id: (s.next_id + 1) as u64,
        },
        o,
    )
}

/// One delete: the first (and under `store_wf` only) order with the id
/// leaves its table, the rest keep their relative order. `None` when the
/// table or the order is not there.
pub open spec fn spec_delete(s: StoreModel, table_id: u64, order_id: u64) -> Option<StoreModel> {
    if (table_id as int) < s.tables.len() && has_order(s.tables[table_id as int], order_id) {
        Some(
            StoreModel {
                tables: s.tables.update(
                    table_id as int,
                    s.tables[table_id as int].remove(
                        find_order(s.tables[table_id as int], order_id),
                    ),
                ),
                next_id: s.next_id,
            },
        )
    } else {
        None
    }
}

/// The shared in-memory store. The universe of table ids is fixed at
/// construction; only the four operations below touch the orders.
pub struct OrderStore {
    tables: Vec<Table>,
    next_id: u64,
}

impl View for OrderStore {
    type V = StoreModel;

    closed spec fn view(&self) -> StoreModel {
        StoreModel {
            tables: Seq::new(self.tables@.len(), |i: int| self.tables@[i].orders@),
            next_id: self.next_id,
        }
    }
}

impl OrderStore {
    /// The store's representation matches its model: each table records the
    /// number it is filed under, and the model is well formed.
    pub open spec fn wf(&self) -> bool {
        store_wf(self@) && self.tables_numbered()
    }

    /// Each table sits at the index it is numbered with.
    pub closed spec fn tables_numbered(&self) -> bool {
        forall|i: int|
            0 <= i < self.tables@.len() ==> (#[trigger] self.tables@[i]).table_number == i
    }

    /// Creates the store with `table_count` empty tables, numbered from
    /// zero.
    pub fn new(table_count: usize) -> (s: OrderStore)
        ensures
            s@ == spec_new_store(table_count as nat),
            s.wf(),
    {
        let mut tables: Vec<Table> = Vec::new();
        let mut i: usize = 0;
        while i < table_count
            invariant
                i <= table_count,
                tables@.len() == i,
                forall|j: int|
                    0 <= j < i ==> (#[trigger] tables@[j]).table_number == j && tables@[j].orders@
                        =~= Seq::<OrderItem>::empty(),
            decreases table_count - i,
        {
            tables.push(Table::new(i as u64));
            i += 1;
        }
        let s = OrderStore { tables, next_id: 0 };
        proof {
            assert(s@.tables =~= spec_new_store(table_count as nat).tables);
        }
        s
    }

    /// How many tables the universe holds.
    pub fn table_count(&self) -> (n: usize)
        ensures
            n == self@.tables.len(),
    {
        self.tables.len()
    }

    /// Whether the id counter can still hand out a fresh id.
    pub fn can_assign_id(&self) -> (b: bool)
        ensures
            b == (self@.next_id < u64::MAX),
    {
        self.next_id < u64::MAX
    }


    /// Creates an order with the next id, stamped with the current time,
    /// and appends it to the table; the counter moves past the id forever.
    pub fn add_order(&mut self, table_id: u64, menu_reference: u64, cooking_time: u64) -> (r:
        Result<OrderItem, ApiError>)
        requires
            old(self).wf(),
            old(self)@.next_id < u64::MAX,
        ensures
            final(self).wf(),
            match r {
                Ok(o) => (table_id as int) < old(self)@.tables.len() && o == spec_add(
                    old(self)@,
                    table_id,
                    menu_reference,
                    o.order_time,
                    cooking_time,
                ).1 && final(self)@ == spec_add(
                    old(self)@,
                    table_id,
                    menu_reference,
                    o.order_time,
                    cooking_time,
                ).0,
                Err(e) => e == ApiError::NotFound && (table_id as int) >= old(
                    self,
                )@.tables.len() && final(self)@ == old(self)@,
            },
    {
        if table_id < self.tables.len() as u64 {
            let id = self.next_id;
            self.next_id = self.next_id + 1;
            let o = OrderItem::new(id, table_id, menu_reference, cooking_time);
            self.tables[table_id as usize].add_order(o);
            proof {
                let prior = old(self)@;
                let stepped = spec_add(prior, table_id, menu_reference, o.order_time, cooking_time);
                lemma_add_preserves_wf(prior, table_id, menu_reference, o.order_time, cooking_time);
                assert(o == stepped.1);
                assert(self@.tables =~= stepped.0.tables);
                assert(self@ == stepped.0);
                assert(self.tables_numbered());
            }
            Ok(o)
        } else {
            Err(ApiError::NotFound)
        }
    }

    /// Removes the order with `order_id` from `table_id`, keeping the
    /// remaining orders in their relative order.
    pub fn delete_order(&mut self, table_id: u64, order_id: u64) -> (r: Result<(), ApiError>)
        requires
            old(self).wf(),
        ensures
            final(self).wf(),
            match r {
                Ok(_) => spec_delete(old(self)@, table_id, order_id) == Some(final(self)@),
                Err(e) => e == ApiError::NotFound && spec_delete(old(self)@, table_id, order_id)
                    is None && final(self)@ == old(self)@,
            },
    {
        if table_id < self.tables.len() as u64 {
            let found = self.tables[table_id as usize].delete_order(order_id);
            if found {
                proof {
                    let prior = old(self)@;
                    lemma_delete_preserves_wf(prior, table_id, order_id);
                    let stepped = spec_delete(prior, table_id, order_id).unwrap();
                    assert(self@.tables =~= stepped.tables);
                    assert(self@ == stepped);
                    assert(self.tables_numbered());
                }
                Ok(())
            } else {
                proof {
                    assert(self@.tables =~= old(self)@.tables);
                    assert(self@ == old(self)@);
                    assert(self.tables_numbered());
                }
                Err(ApiError::NotFound)
            }
        } else {
            Err(ApiError::NotFound)
        }
    }

    /// A snapshot copy of one table's orders, in insertion order.
    pub fn list_orders(&self, table_id: u64) -> (r: Result<Vec<OrderItem>, ApiError>)
        ensures
            match r {
                Ok(v) => spec_list(self@, table_id) == Some(v@),
                Err(e) => e == ApiError::NotFound && spec_list(self@, table_id) is None,
            },
    {
        if table_id < self.tables.len() as u64 {
            let idx = table_id as usize;
            let n = self.tables[idx].orders.len();
            let mut v: Vec<OrderItem> = Vec::new();
            let mut i: usize = 0;
            while i < n
                invariant
                    i <= n,
                    idx < self.tables@.len(),
                    n == self.tables@[idx as int].orders@.len(),
                    v@ =~= self.tables@[idx as int].orders@.subrange(0, i as int),
                decreases n - i,
            {
                v.push(self.tables[idx].orders[i]);
                i += 1;
            }
            proof {
                assert(v@ =~= self.tables@[idx as int].orders@);
            }
            Ok(v)
        } else {
            Err(ApiError::NotFound)
        }
    }

    /// A copy of the order with `order_id` at `table_id`.
    pub fn get_order(&self, table_id: u64, order_id: u64) -> (r: Result<OrderItem, ApiError>)
        ensures
            match r {
                Ok(o) => spec_get(self@, table_id, order_id) == Some(o),
                Err(e) => e == ApiError::NotFound && spec_get(self@, table_id, order_id) is None,
            },
    {
        if table_id < self.tables.len() as u64 {
            match self.tables[table_id as usize].get_order(order_id) {
                Some(o) => Ok(o),
                None => Err(ApiError::NotFound),
            }
        } else {
            Err(ApiError::NotFound)
        }
    }
}


/// Adding to a valid table keeps the store well formed, appends exactly one
/// order at that table's tail, and touches no other table.
pub proof fn lemma_add_preserves_wf(
    s: StoreModel,
    table_id: u64,
    menu_reference: u64,
    order_time: u64,
    cooking_time: u64,
)
    requires
        store_wf(s),
        (table_id as int) < s.tables.len(),
        s.next_id < u64::MAX,
    ensures
        ({
            let (s2, o) = spec_add(s, table_id, menu_reference, order_time, cooking_time);
            &&& store_wf(s2)
            &&& s2.tables.len() == s.tables.len()
            &&& s2.tables[table_id as int] == s.tables[table_id as int].push(o)
            &&& forall|u: int|
                0 <= u < s.tables.len() && u != table_id ==> s2.tables[u] == #[trigger] s.tables[u]
            &&& s2.next_id == s.next_id + 1
            &&& o.id == s.next_id
        }),
{
    let (s2, o) = spec_add(s, table_id, menu_reference, order_time, cooking_time);
    let nt = table_id as int;
    let ni = s.tables[nt].len() as int;
    assert forall|t: int, i: int| 0 <= t < s2.tables.len() && 0 <= i < s2.tables[t].len() implies (
    #[trigger] s2.tables[t][i]).table_number == t && s2.tables[t][i].id < s2.next_id by {
        if t == nt && i == ni {
        } else {
            assert(s2.tables[t][i] == s.tables[t][i]);
        }
    }
    assert forall|t1: int, i1: int, t2: int, i2: int|
        0 <= t1 < s2.tables.len() && 0 <= i1 < s2.tables[t1].len() && 0 <= t2 < s2.tables.len()
            && 0 <= i2 < s2.tables[t2].len() && (t1 != t2 || i1 != i2) implies (
    #[trigger] s2.tables[t1][i1]).id != (#[trigger] s2.tables[t2][i2]).id by {
        if t1 == nt && i1 == ni {
            assert(s2.tables[t2][i2] == s.tables[t2][i2]);
            assert(s.tables[t2][i2].id < s.next_id);
        } else if t2 == nt && i2 == ni {
            assert(s2.tables[t1][i1] == s.tables[t1][i1]);
            assert(s.tables[t1][i1].id < s.next_id);
        } else {
            assert(s2.tables[t1][i1] == s.tables[t1][i1]);
            assert(s2.tables[t2][i2] == s.tables[t2][i2]);
            assert(s.tables[t1][i1].id != s.tables[t2][i2].id);
        }
    }
}

/// Deleting keeps the store well formed, shortens exactly the one table by
/// one, and touches no other table.
pub proof fn lemma_delete_preserves_wf(s: StoreModel, table_id: u64, order_id: u64)
    requires
        store_wf(s),
        spec_delete(s, table_id, order_id) is Some,
    ensures
        ({
            let s2 = spec_delete(s, table_id, order_id).unwrap();
            &&& store_wf(s2)
            &&& s2.tables.len() == s.tables.len()
            &&& s2.tables[table_id as int].len() == s.tables[table_id as int].len() - 1
            &&& forall|u: int|
                0 <= u < s.tables.len() && u != table_id ==> s2.tables[u] == #[trigger] s.tables[u]
            &&& s2.next_id == s.next_id
        }),
{
    let s2 = spec_delete(s, table_id, order_id).unwrap();
    let nt = table_id as int;
    let f = find_order(s.tables[nt], order_id);
    lemma_find_order(s.tables[nt], order_id);
    assert(s2.tables[nt] == s.tables[nt].remove(f));
    assert(forall|j: int|
        0 <= j < s2.tables[nt].len() ==> #[trigger] s2.tables[nt][j] == (if j < f {
            s.tables[nt][j]
        } else {
            s.tables[nt][j + 1]
        }));
    assert forall|t: int, i: int| 0 <= t < s2.tables.len() && 0 <= i < s2.tables[t].len() implies (
    #[trigger] s2.tables[t][i]).table_number == t && s2.tables[t][i].id < s2.next_id by {
        if t == nt {
            if i < f {
                assert(s2.tables[t][i] == s.tables[t][i]);
            } else {
                assert(s2.tables[t][i] == s.tables[t][i + 1]);
            }
        }
    }
    assert forall|t1: int, i1: int, t2: int, i2: int|
        0 <= t1 < s2.tables.len() && 0 <= i1 < s2.tables[t1].len() && 0 <= t2 < s2.tables.len()
            && 0 <= i2 < s2.tables[t2].len() && (t1 != t2 || i1 != i2) implies (
    #[trigger] s2.tables[t1][i1]).id != (#[trigger] s2.tables[t2][i2]).id by {
        let j1 = if t1 == nt && i1 >= f { i1 + 1 } else { i1 };
        let j2 = if t2 == nt && i2 >= f { i2 + 1 } else { i2 };
        assert(s2.tables[t1][i1] == s.tables[t1][j1]);
        assert(s2.tables[t2][i2] == s.tables[t2][j2]);
        assert(s.tables[t1][j1].id != s.tables[t2][j2].id);
    }
}


/// Right after initialization every valid table lists empty.
pub proof fn lemma_new_store_lists_empty(table_count: nat, table_id: u64)
    requires
        (table_id as nat) < table_count,
    ensures
        spec_list(spec_new_store(table_count), table_id) == Some(Seq::<OrderItem>::empty()),
{
}

/// An add followed by a lookup of the returned id yields the very order the
/// add returned, equal in all fields.
pub proof fn lemma_add_then_get(
    s: StoreModel,
    table_id: u64,
    menu_reference: u64,
    order_time: u64,
    cooking_time: u64,
)
    requires
        store_wf(s),
        (table_id as int) < s.tables.len(),
        s.next_id < u64::MAX,
    ensures
        ({
            let (s2, o) = spec_add(s, table_id, menu_reference, order_time, cooking_time);
            spec_get(s2, table_id, o.id) == Some(o)
        }),
{
    let (s2, o) = spec_add(s, table_id, menu_reference, order_time, cooking_time);
    lemma_add_preserves_wf(s, table_id, menu_reference, order_time, cooking_time);
    let nt = table_id as int;
    let tab = s2.tables[nt];
    let ni = s.tables[nt].len() as int;
    assert(tab[ni] == o);
    assert(has_order(tab, o.id));
    lemma_find_order(tab, o.id);
    let f = find_order(tab, o.id);
    if f < ni {
        assert(tab[f] == s.tables[nt][f]);
        assert((#[trigger] s.tables[nt][f]).id < s.next_id);
        assert(false);
    }
}

/// Order ids are strictly increasing across the whole store: of two
/// sequential adds, whatever their tables, the second id is the larger.
pub proof fn lemma_ids_strictly_increase(
    s: StoreModel,
    t1: u64,
    menu1: u64,
    time1: u64,
    cook1: u64,
    t2: u64,
    menu2: u64,
    time2: u64,
    cook2: u64,
)
    requires
        (t1 as int) < s.tables.len(),
        (t2 as int) < s.tables.len(),
        s.next_id + 1 < u64::MAX,
    ensures
        ({
            let (sa, o1) = spec_add(s, t1, menu1, time1, cook1);
            let (sb, o2) = spec_add(sa, t2, menu2, time2, cook2);
            o2.id > o1.id
        }),
{
}

/// After a delete the id is gone: looking it up fails, the table is shorter
/// by exactly one, and the remaining orders keep their relative order.
pub proof fn lemma_delete_then_get(s: StoreModel, table_id: u64, order_id: u64)
    requires
        store_wf(s),
        spec_delete(s, table_id, order_id) is Some,
    ensures
        ({
            let s2 = spec_delete(s, table_id, order_id).unwrap();
            &&& spec_get(s2, table_id, order_id) is None
            &&& spec_list(s2, table_id).unwrap().len() == spec_list(s, table_id).unwrap().len() - 1
            &&& spec_list(s2, table_id) == Some(
                spec_list(s, table_id).unwrap().remove(
                    find_order(spec_list(s, table_id).unwrap(), order_id),
                ),
            )
        }),
{
    let nt = table_id as int;
    let tab = s.tables[nt];
    lemma_find_order(tab, order_id);
    let f = find_order(tab, order_id);
    lemma_delete_preserves_wf(s, table_id, order_id);
    let s2 = spec_delete(s, table_id, order_id).unwrap();
    let tab2 = s2.tables[nt];
    assert(tab2 == tab.remove(f));
    assert forall|j: int| 0 <= j < tab2.len() implies (#[trigger] tab2[j]).id != order_id by {
        if j < f {
            assert(tab2[j] == tab[j]);
            assert(tab[j].id != tab[f].id);
        } else {
            assert(tab2[j] == tab[j + 1]);
            assert(tab[j + 1].id != tab[f].id);
        }
    }
    assert(!has_order(tab2, order_id));
}

/// A burst of adds aimed at one table, first request first.
pub open spec fn spec_add_all(s: StoreModel, table_id: u64, reqs: Seq<(u64, u64, u64)>) -> StoreModel
    decreases reqs.len(),
{
    if reqs.len() == 0 {
        s
    } else {
        spec_add_all(
            spec_add(s, table_id, reqs[0].0, reqs[0].1, reqs[0].2).0,
            table_id,
            reqs.subrange(1, reqs.len() as int),
        )
    }
}

/// No lost updates: a burst of adds grows exactly its table by the number of
/// adds, leaves every other table untouched, and keeps the store well formed
/// — in particular no two orders ever share an id.
pub proof fn lemma_adds_are_not_lost(s: StoreModel, table_id: u64, reqs: Seq<(u64, u64, u64)>)
    requires
        store_wf(s),
        (table_id as int) < s.tables.len(),
        s.next_id + reqs.len() <= u64::MAX,
    ensures
        ({
            let s2 = spec_add_all(s, table_id, reqs);
            &&& store_wf(s2)
            &&& s2.tables.len() == s.tables.len()
            &&& s2.tables[table_id as int].len() == s.tables[table_id as int].len() + reqs.len()
            &&& forall|u: int|
                0 <= u < s.tables.len() && u != table_id ==> s2.tables[u] == #[trigger] s.tables[u]
            &&& s2.next_id == s.next_id + reqs.len()
        }),
    decreases reqs.len(),
{
    if reqs.len() > 0 {
        lemma_add_preserves_wf(s, table_id, reqs[0].0, reqs[0].1, reqs[0].2);
        let s1 = spec_add(s, table_id, reqs[0].0, reqs[0].1, reqs[0].2).0;
        lemma_adds_are_not_lost(s1, table_id, reqs.subrange(1, reqs.len() as int));
    }
}

} // verus!
