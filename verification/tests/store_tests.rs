use order_server::store::{ApiError, OrderStore};

#[test]
fn new_store_lists_empty_everywhere() {
    let store = OrderStore::new(100);
    for t in [0u64, 1, 50, 99] {
        let orders = store.list_orders(t).unwrap();
        assert!(orders.is_empty());
    }
}

#[test]
fn list_outside_universe_is_not_found() {
    let store = OrderStore::new(100);
    assert_eq!(store.list_orders(100), Err(ApiError::NotFound));
    assert_eq!(store.list_orders(999), Err(ApiError::NotFound));
}

#[test]
fn add_then_get_returns_equal_item() {
    let mut store = OrderStore::new(100);
    let added = store.add_order(3, 2, 300).unwrap();
    let fetched = store.get_order(3, added.id).unwrap();
    assert_eq!(fetched.id, added.id);
    assert_eq!(fetched.table_number, added.table_number);
    assert_eq!(fetched.menu_reference, added.menu_reference);
    assert_eq!(fetched.order_time, added.order_time);
    assert_eq!(fetched.cooking_time, added.cooking_time);
}

#[test]
fn add_outside_universe_is_not_found() {
    let mut store = OrderStore::new(100);
    assert_eq!(store.add_order(100, 1, 300), Err(ApiError::NotFound));
}

#[test]
fn ids_strictly_increase_across_tables() {
    let mut store = OrderStore::new(100);
    let first = store.add_order(4, 1, 300).unwrap();
    let second = store.add_order(93, 2, 300).unwrap();
    let third = store.add_order(4, 3, 300).unwrap();
    assert!(second.id > first.id);
    assert!(third.id > second.id);
}

#[test]
fn delete_then_get_is_not_found() {
    let mut store = OrderStore::new(100);
    let a = store.add_order(5, 1, 300).unwrap();
    let b = store.add_order(5, 2, 300).unwrap();
    let c = store.add_order(5, 3, 300).unwrap();
    let before = store.list_orders(5).unwrap().len();
    store.delete_order(5, b.id).unwrap();
    assert_eq!(store.get_order(5, b.id), Err(ApiError::NotFound));
    let after = store.list_orders(5).unwrap();
    assert_eq!(after.len(), before - 1);
    assert_eq!(after[0].id, a.id);
    assert_eq!(after[1].id, c.id);
}

#[test]
fn delete_absent_is_not_found() {
    let mut store = OrderStore::new(100);
    assert_eq!(store.delete_order(5, 42), Err(ApiError::NotFound));
    assert_eq!(store.delete_order(100, 0), Err(ApiError::NotFound));
}

#[test]
fn burst_of_adds_loses_nothing() {
    let mut store = OrderStore::new(100);
    let mut ids = Vec::new();
    for menu in 0..10u64 {
        ids.push(store.add_order(8, menu, 300).unwrap().id);
    }
    let listed = store.list_orders(8).unwrap();
    assert_eq!(listed.len(), 10);
    for (i, order) in listed.iter().enumerate() {
        assert_eq!(order.id, ids[i]);
        assert_eq!(order.menu_reference, i as u64);
    }
    for i in 1..ids.len() {
        assert!(ids[i] > ids[i - 1]);
    }
}
