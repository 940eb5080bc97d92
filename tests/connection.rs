use webrockets::connection::{
    handle_http_request, handle_websocket_request, ClientEvent, ReadOutcome, StepOutput,
    TcpClientAction, TcpClientHandler, TcpClientType, WorkerInput,
};
use webrockets::engine::Action;

const UPGRADE_REQUEST: &str = "GET /chat HTTP/1.1\r\nHost: x\r\nConnection: Upgrade\r\nUpgrade: websocket\r\nSec-WebSocket-Key: dGhlIHNhbXBsZSBub25jZQ==\r\n\r\n";

fn read(bytes: &[u8]) -> WorkerInput {
    WorkerInput::Read(ReadOutcome::Data(bytes.to_vec()))
}

fn masked(text: &str) -> Vec<u8> {
    let mask = [0x01u8, 0x02, 0x03, 0x04];
    let mut frame = vec![0x81u8, 0x80 | text.len() as u8];
    frame.extend_from_slice(&mask);
    for (i, b) in text.bytes().enumerate() {
        frame.push(b ^ mask[i % 4]);
    }
    frame
}

fn upgraded() -> TcpClientHandler {
    let (mut worker, _) = TcpClientHandler::handle_new_client();
    worker.step(read(UPGRADE_REQUEST.as_bytes()));
    worker
}

fn message_of(out: &StepOutput) -> Option<String> {
    match &out.event {
        Some(ClientEvent::Message(m)) => Some(m.clone()),
        _ => None,
    }
}

#[test]
fn new_worker_reports_connected() {
    let (worker, event) = TcpClientHandler::handle_new_client();
    assert!(matches!(event, ClientEvent::Connected));
    assert!(worker.is_connected);
    assert_eq!(worker.client_type, TcpClientType::Http);
}

#[test]
fn plain_request_gets_ok_and_nothing_else() {
    let (mut worker, _) = TcpClientHandler::handle_new_client();
    let out = worker.step(read(b"GET / HTTP/1.1\r\nHost: x\r\n\r\n"));
    assert_eq!(out.write, Some(b"HTTP/1.1 200 OK".to_vec()));
    assert!(out.event.is_none());
    assert!(worker.is_connected);
    assert_eq!(worker.client_type, TcpClientType::Http);
}

#[test]
fn request_with_only_one_upgrade_header_gets_ok() {
    let (mut worker, _) = TcpClientHandler::handle_new_client();
    let out = worker.step(read(b"GET / HTTP/1.1\r\nUpgrade: websocket\r\n\r\n"));
    assert_eq!(out.write, Some(b"HTTP/1.1 200 OK".to_vec()));
    let out = worker.step(read(b"GET / HTTP/1.1\r\nConnection: Upgrade\r\n\r\n"));
    assert_eq!(out.write, Some(b"HTTP/1.1 200 OK".to_vec()));
    assert_eq!(worker.client_type, TcpClientType::Http);
}

#[test]
fn upgrade_request_switches_to_websocket() {
    let (mut worker, _) = TcpClientHandler::handle_new_client();
    let out = worker.step(read(UPGRADE_REQUEST.as_bytes()));
    let written = String::from_utf8(out.write.unwrap()).unwrap();
    assert!(written.starts_with("HTTP/1.1 101 Switching Protocols\r\n"));
    assert!(written.contains("Sec-WebSocket-Accept: s3pPLMBiTxaQ9kYGzzhZRbK+xOo=\r\n"));
    assert!(matches!(out.event, Some(ClientEvent::UpgradeToWebSocket)));
    assert_eq!(worker.client_type, TcpClientType::WebSocket);
}

#[test]
fn text_frame_becomes_message() {
    let mut worker = upgraded();
    let out = worker.step(read(&[0x81, 0x82, 0x01, 0x02, 0x03, 0x04, 0x69, 0x6b]));
    assert_eq!(message_of(&out), Some(String::from("hi")));
    assert!(out.write.is_none());
}

#[test]
fn shutdown_frame_requests_server_shutdown() {
    let mut worker = upgraded();
    let out = worker.step(read(&masked("ShutdownServer")));
    assert!(matches!(out.event, Some(ClientEvent::ShutdownServer)));
    assert!(worker.is_connected);
}

#[test]
fn broken_frame_is_dropped() {
    let mut worker = upgraded();
    let out = worker.step(read(&[0x81, 0x85, 1, 2]));
    assert!(out.event.is_none());
    assert!(out.write.is_none());
    assert!(worker.is_connected);
}

#[test]
fn message_before_upgrade_is_not_reported() {
    let (mut worker, _) = TcpClientHandler::handle_new_client();
    let out = worker.step(read(&masked("hi")));
    assert!(out.event.is_none());
    assert_eq!(worker.client_type, TcpClientType::Http);
}

#[test]
fn non_utf8_request_gets_ok() {
    let (mut worker, _) = TcpClientHandler::handle_new_client();
    let out = worker.step(read(&[0xff, 0xfe, 0x00, 0x80]));
    assert_eq!(out.write, Some(b"HTTP/1.1 200 OK".to_vec()));
    assert!(out.event.is_none());
    assert!(worker.is_connected);
    assert_eq!(worker.client_type, TcpClientType::Http);
}

#[test]
fn random_bytes_get_ok() {
    let (mut worker, _) = TcpClientHandler::handle_new_client();
    let mut seed: u32 = 12345;
    let noise: Vec<u8> = (0..4096)
        .map(|_| {
            seed = seed.wrapping_mul(1103515245).wrapping_add(12345);
            (seed >> 16) as u8
        })
        .collect();
    let out = worker.step(read(&noise));
    assert_eq!(out.write, Some(b"HTTP/1.1 200 OK".to_vec()));
    assert!(out.event.is_none());
    assert!(worker.is_connected);
}

#[test]
fn send_message_writes_frame_in_websocket_mode() {
    let mut worker = upgraded();
    let out = worker.step(WorkerInput::Server(Action::SendMessage(String::from("Echo: hi"))));
    assert_eq!(out.write, Some(vec![0x81u8, 8, b'E', b'c', b'h', b'o', b':', b' ', b'h', b'i']));
    assert!(out.event.is_none());
}

#[test]
fn send_message_is_dropped_before_upgrade_or_when_too_long() {
    let (mut worker, _) = TcpClientHandler::handle_new_client();
    let out = worker.step(WorkerInput::Server(Action::SendMessage(String::from("x"))));
    assert!(out.write.is_none());
    let mut worker = upgraded();
    let out = worker.step(WorkerInput::Server(Action::SendMessage("y".repeat(126))));
    assert!(out.write.is_none());
    let out = worker.step(WorkerInput::Server(Action::SendMessage("y".repeat(125))));
    assert_eq!(out.write.unwrap().len(), 127);
}

#[test]
fn peer_close_reports_client_disconnect() {
    let (mut worker, _) = TcpClientHandler::handle_new_client();
    let out = worker.step(WorkerInput::Read(ReadOutcome::Closed));
    assert!(matches!(out.event, Some(ClientEvent::ClientDisconnect)));
    assert!(!worker.is_connected);
    assert!(matches!(worker.final_event(), ClientEvent::Disconnected));
}

#[test]
fn read_error_reports_communication_error() {
    let mut worker = upgraded();
    let out = worker.step(WorkerInput::Read(ReadOutcome::Failed));
    assert!(matches!(out.event, Some(ClientEvent::CommunicationError)));
    assert!(!worker.is_connected);
}

#[test]
fn stop_reports_client_disconnect() {
    let mut worker = upgraded();
    let out = worker.step(WorkerInput::Server(Action::Stop));
    assert!(matches!(out.event, Some(ClientEvent::ClientDisconnect)));
    assert!(out.write.is_none());
    assert!(!worker.is_connected);
    assert!(matches!(worker.final_event(), ClientEvent::Disconnected));
}

#[test]
fn would_block_changes_nothing() {
    let mut worker = upgraded();
    let out = worker.step(WorkerInput::Read(ReadOutcome::WouldBlock));
    assert!(out.event.is_none() && out.write.is_none());
    assert!(worker.is_connected);
    assert_eq!(worker.client_type, TcpClientType::WebSocket);
}

#[test]
fn disconnected_worker_ignores_input() {
    let mut worker = upgraded();
    worker.step(WorkerInput::Read(ReadOutcome::Closed));
    let out = worker.step(read(&masked("hi")));
    assert!(out.event.is_none() && out.write.is_none());
    assert!(!worker.is_connected);
}

#[test]
fn websocket_mode_survives_a_later_http_looking_request() {
    let mut worker = upgraded();
    worker.step(read(UPGRADE_REQUEST.as_bytes()));
    assert_eq!(worker.client_type, TcpClientType::WebSocket);
}

#[test]
fn session_events_are_bracketed() {
    let (mut worker, first) = TcpClientHandler::handle_new_client();
    let mut events = vec![first.to_text()];
    let inputs = vec![
        read(b"GET / HTTP/1.1\r\n\r\n"),
        read(UPGRADE_REQUEST.as_bytes()),
        read(&masked("ping")),
        read(&masked("hello")),
        WorkerInput::Read(ReadOutcome::Closed),
        read(&masked("late")),
    ];
    for input in inputs {
        if let Some(e) = worker.step(input).event {
            events.push(e.to_text());
        }
    }
    events.push(worker.final_event().to_text());
    assert_eq!(
        events,
        vec!["Connected", "Upgrade to WebSocket", "ping", "hello", "Client Disconnect", "Disconnected"]
    );
}

#[test]
fn handlers_decide_actions() {
    let (action, reply) = handle_http_request(UPGRADE_REQUEST.as_bytes());
    assert!(matches!(action, TcpClientAction::UpgradeToWebSocket(ref k) if k == "dGhlIHNhbXBsZSBub25jZQ=="));
    assert!(reply.is_none());
    let (action, reply) = handle_http_request(b"GET / HTTP/1.1\r\n\r\n");
    assert!(matches!(action, TcpClientAction::NoAction));
    assert_eq!(reply, Some(b"HTTP/1.1 200 OK".to_vec()));
    let (action, reply) = handle_http_request(&[0xc3, 0x28]);
    assert!(matches!(action, TcpClientAction::NoAction));
    assert_eq!(reply, Some(b"HTTP/1.1 200 OK".to_vec()));
    assert!(matches!(handle_websocket_request(&masked("hi")), TcpClientAction::HandleMessage(ref m) if m == "hi"));
    assert!(matches!(handle_websocket_request(&masked("ShutdownServer")), TcpClientAction::RequestServerShutdown));
    assert!(matches!(handle_websocket_request(&[0x81]), TcpClientAction::NoAction));
}

#[test]
fn event_texts() {
    assert_eq!(ClientEvent::Connected.to_text(), "Connected");
    assert_eq!(ClientEvent::ClientDisconnect.to_text(), "Client Disconnect");
    assert_eq!(ClientEvent::CommunicationError.to_text(), "Client Communication Error");
    assert_eq!(ClientEvent::UpgradeToWebSocket.to_text(), "Upgrade to WebSocket");
    assert_eq!(ClientEvent::ShutdownServer.to_text(), "ShutdownServer");
    assert_eq!(ClientEvent::Message(String::from("m")).to_text(), "m");
    assert_eq!(ClientEvent::Disconnected.to_text(), "Disconnected");
}
