use order_server::order::{OrderItem, Table};

#[test]
fn test_table_add_order() {
    let mut table = Table::new(0);
    let cooking_time = 300;
    let order = OrderItem::new(0, 0, 1, cooking_time);
    table.add_order(order);
    assert_eq!(table.orders.len(), 1);
    assert_eq!(table.orders.first().unwrap().table_number, 0);
    assert_eq!(table.orders.first().unwrap().menu_reference, 1);
}

#[test]
fn test_table_get_order() {
    let mut table = Table::new(0);
    let cooking_time = 300;
    let order = OrderItem::new(0, 0, 1, cooking_time);
    let order_id = order.id;
    table.orders.push(order);
    assert_eq!(table.get_order(order_id).unwrap().table_number, 0);
    assert_eq!(table.get_order(order_id).unwrap().menu_reference, 1);
}

#[test]
fn test_table_delete_order() {
    let mut table = Table::new(0);
    let cooking_time = 300;
    let order = OrderItem::new(0, 0, 1, cooking_time);
    let order_id = order.id;
    table.orders.push(order);
    assert_eq!(table.get_order(order_id).unwrap().table_number, 0);
    assert_eq!(table.get_order(order_id).unwrap().menu_reference, 1);
    table.delete_order(order_id);
    assert_eq!(table.orders.len(), 0);
}

#[test]
fn table_delete_keeps_relative_order() {
    let mut table = Table::new(7);
    table.add_order(OrderItem::new(10, 7, 1, 300));
    table.add_order(OrderItem::new(11, 7, 2, 300));
    table.add_order(OrderItem::new(12, 7, 3, 300));
    let removed = table.delete_order(11);
    assert!(removed);
    assert_eq!(table.orders.len(), 2);
    assert_eq!(table.orders[0].id, 10);
    assert_eq!(table.orders[1].id, 12);
}

#[test]
fn table_delete_absent_changes_nothing() {
    let mut table = Table::new(0);
    table.add_order(OrderItem::new(1, 0, 4, 300));
    let removed = table.delete_order(2);
    assert!(!removed);
    assert_eq!(table.orders.len(), 1);
    assert!(table.get_order(2).is_none());
}
