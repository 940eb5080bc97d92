use webrockets::handshake::{build_response, build_ws_accept_key, upgrade_to_websocket};

#[test]
fn accept_key_of_rfc_example() {
    assert_eq!(build_ws_accept_key("dGhlIHNhbXBsZSBub25jZQ=="), "s3pPLMBiTxaQ9kYGzzhZRbK+xOo=");
}

#[test]
fn accept_key_differs_per_key() {
    let a = build_ws_accept_key("x3JJHMbDL1EzLkh9GBhXDw==");
    assert_eq!(a, "HSmrc0sMlYUkAGmm5OPpG2HaGWk=");
    assert_ne!(a, build_ws_accept_key("dGhlIHNhbXBsZSBub25jZQ=="));
}

#[test]
fn response_around_accept_key() {
    assert_eq!(
        build_response(String::from("abc")),
        "HTTP/1.1 101 Switching Protocols\r\nConnection: Upgrade\r\nSec-WebSocket-Accept: abc\r\nUpgrade: websocket\r\n\r\n"
    );
}

#[test]
fn upgrade_response_for_rfc_example() {
    let response = upgrade_to_websocket(&String::from("dGhlIHNhbXBsZSBub25jZQ=="));
    assert_eq!(response.len(), 129);
    assert_eq!(
        response,
        "HTTP/1.1 101 Switching Protocols\r\nConnection: Upgrade\r\nSec-WebSocket-Accept: s3pPLMBiTxaQ9kYGzzhZRbK+xOo=\r\nUpgrade: websocket\r\n\r\n"
    );
}
