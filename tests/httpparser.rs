use webrockets::httpparser::parse_http_request;

#[test]
fn parses_request_line_and_host() {
    let r = parse_http_request("GET / HTTP/1.1\r\nHost: x\r\n\r\n");
    assert_eq!(r.verb, "GET");
    assert_eq!(r.path, "/");
    assert_eq!(r.protocol, "HTTP/1.1");
    assert_eq!(r.host, "x");
    assert_eq!(r.connection, "");
    assert_eq!(r.upgrade, "");
}

#[test]
fn parses_websocket_upgrade_request() {
    let text = "GET /chat HTTP/1.1\r\n\
        Host: server.example.com\r\n\
        Upgrade: websocket\r\n\
        Connection: Upgrade\r\n\
        Sec-WebSocket-Key: dGhlIHNhbXBsZSBub25jZQ==\r\n\
        Sec-WebSocket-Version: 13\r\n\
        Sec-WebSocket-Extensions: permessage-deflate\r\n\
        User-Agent: test agent/1.0\r\n\
        Accept: */*\r\n\
        Accept-Encoding: gzip, deflate\r\n\
        Accept-Language: en-US\r\n\
        Cache-Control: no-cache\r\n\r\n";
    let r = parse_http_request(text);
    assert_eq!(r.path, "/chat");
    assert_eq!(r.host, "server.example.com");
    assert_eq!(r.upgrade, "websocket");
    assert_eq!(r.connection, "Upgrade");
    assert_eq!(r.sec_websocket_key, "dGhlIHNhbXBsZSBub25jZQ==");
    assert_eq!(r.sec_websocket_version, "13");
    assert_eq!(r.sec_websocket_extensions, "permessage-deflate");
    assert_eq!(r.user_agent, "test agent/1.0");
    assert_eq!(r.accept, "*/*");
    assert_eq!(r.accept_encoding, "gzip, deflate");
    assert_eq!(r.accept_language, "en-US");
    assert_eq!(r.cache_control, "no-cache");
}

#[test]
fn value_keeps_colons_after_the_first() {
    let r = parse_http_request("GET / HTTP/1.1\nHost: localhost:8080\n");
    assert_eq!(r.host, "localhost:8080");
}

#[test]
fn last_occurrence_of_a_header_wins() {
    let r = parse_http_request("GET / HTTP/1.1\nHost: a\nHost: b\n");
    assert_eq!(r.host, "b");
}

#[test]
fn unknown_and_malformed_headers_are_ignored() {
    let r = parse_http_request("GET / HTTP/1.1\nX-Host: a\nHost\nhost: b\nHost : c\n");
    assert_eq!(r.host, "");
}

#[test]
fn missing_request_line_tokens_are_empty() {
    let r = parse_http_request("GET");
    assert_eq!(r.verb, "GET");
    assert_eq!(r.path, "");
    assert_eq!(r.protocol, "");
    let r = parse_http_request("");
    assert_eq!(r.verb, "");
}

#[test]
fn first_line_is_never_a_header() {
    let r = parse_http_request("Host: a\nConnection: keep\n");
    assert_eq!(r.host, "");
    assert_eq!(r.connection, "keep");
    assert_eq!(r.verb, "Host:");
    assert_eq!(r.path, "a");
}

#[test]
fn values_are_trimmed_of_ascii_whitespace() {
    let r = parse_http_request("GET  /x\t HTTP/1.1 \r\nUpgrade:\t websocket \t\r\nConnection:\r\n");
    assert_eq!(r.verb, "GET");
    assert_eq!(r.path, "");
    assert_eq!(r.protocol, "/x");
    assert_eq!(r.upgrade, "websocket");
    assert_eq!(r.connection, "");
}

#[test]
fn non_ascii_values_survive() {
    let r = parse_http_request("GET /ü HTTP/1.1\nUser-Agent:  héllo wörld \n");
    assert_eq!(r.path, "/ü");
    assert_eq!(r.user_agent, "héllo wörld");
}
