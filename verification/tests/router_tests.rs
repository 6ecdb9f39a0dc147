use order_server::router::{handle_buffer, handle_request, route, RouteAction};
use order_server::store::OrderStore;

#[test]
fn route_matches_the_table() {
    assert_eq!(route("GET", "/"), RouteAction::Landing);
    assert_eq!(route("GET", ""), RouteAction::Landing);
    assert_eq!(route("POST", "/"), RouteAction::Landing);
    assert_eq!(route("GET", "/tables"), RouteAction::Landing);
    assert_eq!(route("get", "/TABLES/3"), RouteAction::ListOrders { table: 3 });
    assert_eq!(route("GET", "/tables/3/7"), RouteAction::GetOrder { table: 3, order: 7 });
    assert_eq!(route("DELETE", "/tables/3/7"), RouteAction::DeleteOrder { table: 3, order: 7 });
    assert_eq!(
        route("POST", "/tables/3/AddItem/2"),
        RouteAction::AddOrder { table: 3, menu: 2 }
    );
    assert_eq!(route("post", "/tables/3/additem/2"), RouteAction::AddOrder { table: 3, menu: 2 });
    assert_eq!(route("GET", "/bogus/path"), RouteAction::NotFound);
    assert_eq!(route("PUT", "/tables/3"), RouteAction::NotFound);
    assert_eq!(route("GET", "/tables/3/7/8/9"), RouteAction::NotFound);
}

#[test]
fn route_rejects_malformed_numbers() {
    assert_eq!(route("GET", "/tables/abc"), RouteAction::BadRequest);
    assert_eq!(route("GET", "/tables/3/"), RouteAction::BadRequest);
    assert_eq!(route("DELETE", "/tables/3/x"), RouteAction::BadRequest);
    assert_eq!(route("POST", "/tables/-1/AddItem/2"), RouteAction::BadRequest);
    assert_eq!(route("GET", "/tables/99999999999999999999"), RouteAction::BadRequest);
}

#[test]
fn empty_table_lists_empty_fragment() {
    let mut store = OrderStore::new(100);
    let (status, file, body) = handle_request(&mut store, "GET", "/tables/3");
    assert_eq!(status, "HTTP/1.1 200 OK");
    assert_eq!(file, "table.html");
    assert_eq!(body, "<ul>\r\n\t\t</ul>");
}

#[test]
fn add_list_delete_round_trip() {
    let mut store = OrderStore::new(100);

    let (status, file, body) = handle_request(&mut store, "POST", "/tables/3/AddItem/2");
    assert_eq!(status, "HTTP/1.1 200 OK");
    assert_eq!(file, "table.html");
    assert!(body.contains("Order Menu Reference: 2"));

    let listed = store.list_orders(3).unwrap();
    assert_eq!(listed.len(), 1);
    assert_eq!(listed[0].menu_reference, 2);
    assert_eq!(listed[0].table_number, 3);
    assert_eq!(listed[0].cooking_time, 300);
    let id = listed[0].id;

    let (status, _, body) = handle_request(&mut store, "GET", "/tables/3");
    assert_eq!(status, "HTTP/1.1 200 OK");
    assert!(body.contains(&format!("Order ID: {}", id)));

    let path = format!("/tables/3/{}", id);
    let (status, file, _) = handle_request(&mut store, "DELETE", &path);
    assert_eq!(status, "HTTP/1.1 200 OK");
    assert_eq!(file, "table.html");

    let (status, _, body) = handle_request(&mut store, "GET", "/tables/3");
    assert_eq!(status, "HTTP/1.1 200 OK");
    assert_eq!(body, "<ul>\r\n\t\t</ul>");
}

#[test]
fn table_outside_universe_is_404() {
    let mut store = OrderStore::new(100);
    let (status, file, body) = handle_request(&mut store, "GET", "/tables/999");
    assert_eq!(status, "HTTP/1.1 404 NOT FOUND");
    assert_eq!(file, "404.html");
    assert_eq!(body, "");
}

#[test]
fn bogus_path_is_404_without_touching_store() {
    let mut store = OrderStore::new(100);
    let (status, file, _) = handle_request(&mut store, "GET", "/bogus/path");
    assert_eq!(status, "HTTP/1.1 404 NOT FOUND");
    assert_eq!(file, "404.html");
    for t in 0..100 {
        assert!(store.list_orders(t).unwrap().is_empty());
    }
}

#[test]
fn raw_request_head_is_parsed_and_routed() {
    let mut store = OrderStore::new(100);
    let (status, file, body) =
        handle_buffer(&mut store, b"GET /tables/3 HTTP/1.1\r\nHost: localhost\r\n\r\n");
    assert_eq!(status, "HTTP/1.1 200 OK");
    assert_eq!(file, "table.html");
    assert_eq!(body, "<ul>\r\n\t\t</ul>");

    let (status, file, _) =
        handle_buffer(&mut store, b"POST /tables/4/AddItem/1 HTTP/1.1\r\nHost: x\r\n\r\n");
    assert_eq!(status, "HTTP/1.1 200 OK");
    assert_eq!(file, "table.html");
    assert_eq!(store.list_orders(4).unwrap().len(), 1);
}

#[test]
fn unparsable_head_is_404() {
    let mut store = OrderStore::new(100);
    let (status, file, body) = handle_buffer(&mut store, b"\xff\xfe nonsense \r\n\r\n");
    assert_eq!(status, "HTTP/1.1 404 NOT FOUND");
    assert_eq!(file, "404.html");
    assert_eq!(body, "");
}
