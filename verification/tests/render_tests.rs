use order_server::order::OrderItem;
use order_server::render::{build_response_string, get_order_html, get_order_list_html};

#[test]
fn test_build_response_string() {
    assert_eq!(
        build_response_string("HTTP/1.1 200 OK".to_owned(), "index.html".to_owned()),
        "HTTP/1.1 200 OK\r\nContent-Length: 10\r\n\r\nindex.html"
    );
}

#[test]
fn order_html_renders_every_field() {
    let order = OrderItem {
        id: 1,
        table_number: 2,
        menu_reference: 3,
        order_time: 0,
        cooking_time: 300,
    };
    let html = get_order_html(&order);
    assert_eq!(
        html,
        "<ul>\r\n\t\t\t<li>Order ID: 1 - Order Table Number: 2 - Order Menu Reference: 3 \
         - Order Time: 1970-01-01 00:00:00 UTC - Cooking Duration: PT300S</li>\r\n\t\t</ul>"
    );
}

#[test]
fn empty_list_renders_bare_tags() {
    let orders: Vec<OrderItem> = Vec::new();
    assert_eq!(get_order_list_html(&orders), "<ul>\r\n\t\t</ul>");
}

#[test]
fn list_html_keeps_insertion_order() {
    let orders = vec![
        OrderItem { id: 4, table_number: 9, menu_reference: 1, order_time: 0, cooking_time: 300 },
        OrderItem { id: 5, table_number: 9, menu_reference: 2, order_time: 0, cooking_time: 300 },
    ];
    let html = get_order_list_html(&orders);
    let first = html.find("Order ID: 4").unwrap();
    let second = html.find("Order ID: 5").unwrap();
    assert!(first < second);
    assert!(html.starts_with("<ul>"));
    assert!(html.ends_with("\r\n\t\t</ul>"));
}
