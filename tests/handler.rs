use webrockets::channel::Channel;
use webrockets::engine::{Action, Request};
use webrockets::handler::{echo_request, ClientHandler, MyServerImpl};

#[test]
fn echo_request_prefixes_message() {
    let r = echo_request("127.0.0.1:9", "hi");
    assert_eq!(r.client_id, "127.0.0.1:9");
    assert!(matches!(r.action, Action::SendMessage(ref t) if t == "Echo: hi"));
}

#[test]
fn sample_application_echoes_through_its_channel() {
    let channel: Channel<Request> = Channel::new();
    let app = MyServerImpl::new(String::from("MyServer"), channel.sender.clone());
    assert_eq!(app.name, "MyServer");
    app.to_server_tx.send(echo_request("d", "direct")).unwrap();
    assert_eq!(channel.receiver.try_recv().unwrap().client_id, "d");
    app.on_client_connected("c");
    assert!(channel.receiver.try_recv().is_err());
    app.on_message_received("c", "hello");
    let r = channel.receiver.try_recv().unwrap();
    assert_eq!(r.client_id, "c");
    assert!(matches!(r.action, Action::SendMessage(ref t) if t == "Echo: hello"));
}

#[test]
fn reply_to_a_gone_server_is_dropped() {
    let channel: Channel<Request> = Channel::new();
    let app = MyServerImpl::new(String::from("MyServer"), channel.sender.clone());
    drop(channel);
    app.on_message_received("c", "hello");
}
