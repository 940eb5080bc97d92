//! The callbacks through which an application plugs into the engine, and
//! the sample application that echoes every message back.
use vstd::prelude::*;
use vstd::string::*;
use crate::engine::{Action, Request};

verus! {

/// What the echo application puts before each message it sends back.
pub const ECHO_PREFIX: &'static str = "Echo: ";

/// The application side of a server: told of each new connection and of
/// each message, by the id of the connection.
pub trait ClientHandler {
    fn on_client_connected(&self, client_id: &str);

    fn on_message_received(&self, client_id: &str, message: &str);
}

/// An application that is handed a sender for its replies when a client
/// connects.
pub trait Server {
    fn on_client_connected(&self, sender: std::sync::mpsc::Sender<String>);

    fn on_message_received(&self, client_id: &str, message: String);
}

/// The sample application: replies to each message with the message
/// behind `Echo: `.
pub struct MyServerImpl {
    pub name: String,
    pub to_server_tx: std::sync::mpsc::Sender<Request>,
}

impl MyServerImpl {
    pub fn new(name: String, to_server_tx: std::sync::mpsc::Sender<Request>) -> (r: MyServerImpl)
        ensures
            r.name@ == name@,
            r.to_server_tx == to_server_tx,
    {
        MyServerImpl { name, to_server_tx }
    }
}

/// The reply of the echo application to `message` from `client_id`.
pub fn echo_request(client_id: &str, message: &str) -> (r: Request)
    ensures
        r.client_id@ == client_id@,
        r.action is SendMessage,
        r.action->SendMessage_0@ == ECHO_PREFIX@ + message@,
{
    let mut text: String = String::from_str(ECHO_PREFIX);
    text.append(message);
    Request { client_id: String::from_str(client_id), action: Action::SendMessage(text) }
}

impl ClientHandler for MyServerImpl {
    /// The echo application has nothing to do for a new connection.
    fn on_client_connected(&self, _client_id: &str) {
    }

    /// Sends the echo back through the server. A server that has gone
    /// can take no reply, and the reply is then dropped.
    fn on_message_received(&self, client_id: &str, message: &str) {
        let _ = self.to_server_tx.send(echo_request(client_id, message));
    }
}

} // verus!
