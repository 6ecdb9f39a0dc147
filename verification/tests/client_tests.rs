use order_server::client::{client_request, random_client_action};

#[test]
fn client_request_text_is_exact() {
    assert_eq!(
        client_request(0, 5, 0),
        "GET /tables/5 HTTP/1.0\r\nHost: localhost:7878\r\nConnection: close\r\n\r\n"
    );
    assert_eq!(
        client_request(1, 17, 3),
        "POST /tables/17/AddItem/3 HTTP/1.0\r\nHost: localhost:7878\r\nConnection: close\r\n\r\n"
    );
    assert_eq!(
        client_request(2, 99, 0),
        "DELETE /tables/99 HTTP/1.0\r\nHost: localhost:7878\r\nConnection: close\r\n\r\n"
    );
}

#[test]
fn random_action_stays_in_bounds() {
    for _ in 0..50 {
        let (sleep_ms, request) = random_client_action(100);
        assert!(sleep_ms < 3000);
        assert!(
            request.starts_with("GET /tables/")
                || request.starts_with("POST /tables/")
                || request.starts_with("DELETE /tables/")
        );
        assert!(request.ends_with("\r\nHost: localhost:7878\r\nConnection: close\r\n\r\n"));
    }
}
