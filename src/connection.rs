//! The per-connection worker: what it does with each read from its socket
//! and each request from its server, as a state machine that the thread
//! owning the socket drives.
use vstd::prelude::*;
use vstd::utf8::*;
use vstd::string::*;
use vstd::slice::slice_to_vec;
use crate::codec::{build_websocket_frame, frame_text, parse_websocket_frame, text_frame, text_from_utf8};
use crate::engine::Action;
use crate::handshake::{accept_key_of, switching_response, upgrade_to_websocket};
use crate::httpparser::{header_field, parse_http_request, CONNECTION, SEC_WEBSOCKET_KEY, UPGRADE};

verus! {

broadcast use {encode_utf8_decode_utf8, encode_utf8_valid_utf8};

/// The whole reply to a request that does not ask for an upgrade.
pub const OK_RESPONSE: &'static str = "HTTP/1.1 200 OK";

/// Application message that asks the server to shut down.
pub const SHUTDOWN_COMMAND: &'static str = "ShutdownServer";

/// `Connection` value that, with `UPGRADE_TOKEN`, asks for a WebSocket.
pub const CONNECTION_UPGRADE: &'static str = "Upgrade";

/// `Upgrade` value that, with `CONNECTION_UPGRADE`, asks for a WebSocket.
pub const UPGRADE_TOKEN: &'static str = "websocket";

/// Which request handler a connection has installed.
#[derive(PartialEq, Eq, Structural, Clone, Copy, Debug)]
pub enum TcpClientType {
    Http,
    WebSocket,
}

/// What a request handler asks its worker to do.
pub enum TcpClientAction {
    NoAction,
    HandleMessage(String),
    CloseConnection,
    UpgradeToWebSocket(String),
    RequestServerShutdown,
}

/// `TcpClientAction` with its text as characters.
pub enum ActionView {
    NoAction,
    HandleMessage(Seq<char>),
    CloseConnection,
    UpgradeToWebSocket(Seq<char>),
    RequestServerShutdown,
}

impl View for TcpClientAction {
    type V = ActionView;

    open spec fn view(&self) -> ActionView {
        match self {
            TcpClientAction::NoAction => ActionView::NoAction,
            TcpClientAction::HandleMessage(m) => ActionView::HandleMessage(m@),
            TcpClientAction::CloseConnection => ActionView::CloseConnection,
            TcpClientAction::UpgradeToWebSocket(k) => ActionView::UpgradeToWebSocket(k@),
            TcpClientAction::RequestServerShutdown => ActionView::RequestServerShutdown,
        }
    }
}

/// What a worker reports to its server.
pub enum ClientEvent {
    Connected,
    ClientDisconnect,
    CommunicationError,
    UpgradeToWebSocket,
    ShutdownServer,
    Message(String),
    Disconnected,
}

/// `ClientEvent` with its text as characters.
pub enum EventView {
    Connected,
    ClientDisconnect,
    CommunicationError,
    UpgradeToWebSocket,
    ShutdownServer,
    Message(Seq<char>),
    Disconnected,
}

impl View for ClientEvent {
    type V = EventView;

    open spec fn view(&self) -> EventView {
        match self {
            ClientEvent::Connected => EventView::Connected,
            ClientEvent::ClientDisconnect => EventView::ClientDisconnect,
            ClientEvent::CommunicationError => EventView::CommunicationError,
            ClientEvent::UpgradeToWebSocket => EventView::UpgradeToWebSocket,
            ClientEvent::ShutdownServer => EventView::ShutdownServer,
            ClientEvent::Message(m) => EventView::Message(m@),
            ClientEvent::Disconnected => EventView::Disconnected,
        }
    }
}

/// The text by which the event travels upstream.
pub open spec fn event_text(e: EventView) -> Seq<char> {
    match e {
        EventView::Connected => "Connected"@,
        EventView::ClientDisconnect => "Client Disconnect"@,
        EventView::CommunicationError => "Client Communication Error"@,
        EventView::UpgradeToWebSocket => "Upgrade to WebSocket"@,
        EventView::ShutdownServer => "ShutdownServer"@,
        EventView::Message(m) => m,
        EventView::Disconnected => "Disconnected"@,
    }
}

impl ClientEvent {
    /// The event as the text of the upstream vocabulary; a message is its
    /// own text.
    pub fn to_text(&self) -> (r: String)
        ensures
            r@ == event_text(self@),
    {
        match self {
            ClientEvent::Connected => String::from_str("Connected"),
            ClientEvent::ClientDisconnect => String::from_str("Client Disconnect"),
            ClientEvent::CommunicationError => String::from_str("Client Communication Error"),
            ClientEvent::UpgradeToWebSocket => String::from_str("Upgrade to WebSocket"),
            ClientEvent::ShutdownServer => String::from_str("ShutdownServer"),
            ClientEvent::Message(m) => m.clone(),
            ClientEvent::Disconnected => String::from_str("Disconnected"),
        }
    }
}

/// What one non-blocking read of the socket gave.
pub enum ReadOutcome {
    /// Bytes arrived.
    Data(Vec<u8>),
    /// The peer closed the connection (a read of zero bytes).
    Closed,
    /// Nothing to read yet.
    WouldBlock,
    /// The read failed.
    Failed,
}

/// One thing that happens to a worker.
pub enum WorkerInput {
    Read(ReadOutcome),
    Server(Action),
}

/// `WorkerInput` as plain values.
pub enum InputView {
    Data(Seq<u8>),
    Closed,
    WouldBlock,
    Failed,
    Send(Seq<char>),
    Stop,
}

impl View for WorkerInput {
    type V = InputView;

    open spec fn view(&self) -> InputView {
        match self {
            WorkerInput::Read(ReadOutcome::Data(d)) => InputView::Data(d@),
            WorkerInput::Read(ReadOutcome::Closed) => InputView::Closed,
            WorkerInput::Read(ReadOutcome::WouldBlock) => InputView::WouldBlock,
            WorkerInput::Read(ReadOutcome::Failed) => InputView::Failed,
            WorkerInput::Server(Action::SendMessage(m)) => InputView::Send(m@),
            WorkerInput::Server(Action::Stop) => InputView::Stop,
        }
    }
}

/// What the worker does in answer to one input: bytes to write to the
/// socket, and an event for the server.
pub struct StepOutput {
    pub write: Option<Vec<u8>>,
    pub event: Option<ClientEvent>,
}

/// The bytes an optional write carries.
pub open spec fn opt_bytes(o: Option<Vec<u8>>) -> Option<Seq<u8>> {
    match o {
        Some(w) => Some(w@),
        None => None,
    }
}

impl View for StepOutput {
    type V = (Option<Seq<u8>>, Option<EventView>);

    open spec fn view(&self) -> (Option<Seq<u8>>, Option<EventView>) {
        (
            opt_bytes(self.write),
            match self.event {
                Some(e) => Some(e@),
                None => None,
            },
        )
    }
}

/// The worker's state and output after one input.
pub struct StepView {
    pub mode: TcpClientType,
    pub connected: bool,
    pub write: Option<Seq<u8>>,
    pub event: Option<EventView>,
}

/// The request `d` asks to switch to WebSocket.
pub open spec fn is_upgrade_request(d: Seq<u8>) -> bool {
    &&& decode_utf8(header_field(d, CONNECTION.spec_bytes())) == CONNECTION_UPGRADE@
    &&& decode_utf8(header_field(d, UPGRADE.spec_bytes())) == UPGRADE_TOKEN@
}

/// The client key that the request `d` carries.
pub open spec fn upgrade_key(d: Seq<u8>) -> Seq<char> {
    decode_utf8(header_field(d, SEC_WEBSOCKET_KEY.spec_bytes()))
}

/// What the handler installed for `mode` makes of the bytes `d`.
pub open spec fn handler_action(mode: TcpClientType, d: Seq<u8>) -> ActionView {
    match mode {
        TcpClientType::Http => if valid_utf8(d) && is_upgrade_request(d) {
            ActionView::UpgradeToWebSocket(upgrade_key(d))
        } else {
            ActionView::NoAction
        },
        TcpClientType::WebSocket => match frame_text(d) {
            Ok(t) => if t == SHUTDOWN_COMMAND@ {
                ActionView::RequestServerShutdown
            } else {
                ActionView::HandleMessage(t)
            },
            Err(_) => ActionView::NoAction,
        },
    }
}

/// What the handler installed for `mode` writes back itself for `d`: the
/// HTTP handler answers everything but an upgrade request with
/// `HTTP/1.1 200 OK`, bytes that are not UTF-8 included.
pub open spec fn handler_reply(mode: TcpClientType, d: Seq<u8>) -> Option<Seq<u8>> {
    if mode == TcpClientType::Http && !(valid_utf8(d) && is_upgrade_request(d)) {
        Some(OK_RESPONSE.spec_bytes())
    } else {
        None
    }
}

/// A step that changes nothing.
pub open spec fn idle(mode: TcpClientType, connected: bool) -> StepView {
    StepView { mode, connected, write: None, event: None }
}

/// How a connected worker in `mode` carries out `action`, after the
/// handler itself wrote `reply`.
pub open spec fn apply_action(mode: TcpClientType, action: ActionView, reply: Option<Seq<u8>>) -> StepView {
    match action {
        ActionView::NoAction => StepView { mode, connected: true, write: reply, event: None },
        ActionView::CloseConnection => StepView {
            mode,
            connected: false,
            write: None,
            event: Some(EventView::ClientDisconnect),
        },
        ActionView::HandleMessage(t) => StepView {
            mode,
            connected: true,
            write: None,
            event: Some(EventView::Message(t)),
        },
        ActionView::UpgradeToWebSocket(key) => StepView {
            mode: TcpClientType::WebSocket,
            connected: true,
            write: Some(encode_utf8(switching_response(accept_key_of(key)))),
            event: Some(EventView::UpgradeToWebSocket),
        },
        ActionView::RequestServerShutdown => StepView {
            mode,
            connected: true,
            write: None,
            event: Some(EventView::ShutdownServer),
        },
    }
}

/// One step of the worker: from its state and an input to its next state
/// and what it writes and reports. A worker that is no longer connected
/// does nothing.
pub open spec fn worker_step(mode: TcpClientType, connected: bool, input: InputView) -> StepView {
    if !connected {
        idle(mode, connected)
    } else {
        match input {
            InputView::Data(d) => apply_action(mode, handler_action(mode, d), handler_reply(mode, d)),
            InputView::Closed => StepView {
                mode,
                connected: false,
                write: None,
                event: Some(EventView::ClientDisconnect),
            },
            InputView::WouldBlock => idle(mode, connected),
            InputView::Failed => StepView {
                mode,
                connected: false,
                write: None,
                event: Some(EventView::CommunicationError),
            },
            InputView::Send(t) => if mode == TcpClientType::WebSocket && encode_utf8(t).len() <= 125 {
                StepView { mode, connected, write: Some(text_frame(encode_utf8(t))), event: None }
            } else {
                idle(mode, connected)
            },
            InputView::Stop => StepView {
                mode,
                connected: false,
                write: None,
                event: Some(EventView::ClientDisconnect),
            },
        }
    }
}

/// Copies the UTF-8 bytes of `s`.
fn bytes_of(s: &str) -> (r: Vec<u8>)
    ensures
        r@ == s.spec_bytes(),
{
    slice_to_vec(s.as_bytes())
}

/// The HTTP handler: asks for an upgrade where the request carries both
/// upgrade headers, and otherwise answers `HTTP/1.1 200 OK` itself, also to
/// bytes that are not UTF-8.
pub fn handle_http_request(data: &[u8]) -> (r: (TcpClientAction, Option<Vec<u8>>))
    ensures
        r.0@ == handler_action(TcpClientType::Http, data@),
        opt_bytes(r.1) == handler_reply(TcpClientType::Http, data@),
{
    match text_from_utf8(data) {
        None => (TcpClientAction::NoAction, Some(bytes_of(OK_RESPONSE))),
        Some(text) => {
            let text_ref: &str = text.as_str();
            proof {
                decode_utf8_encode_utf8(data@);
                assert(text_ref.spec_bytes() == data@);
            }
            let request = parse_http_request(text_ref);
            proof {
                assert(request.field_bytes()[4] == encode_utf8(request.connection@));
                assert(request.field_bytes()[12] == encode_utf8(request.upgrade@));
                assert(request.field_bytes()[11] == encode_utf8(request.sec_websocket_key@));
            }
            let wanted_connection: String = String::from_str(CONNECTION_UPGRADE);
            let wanted_upgrade: String = String::from_str(UPGRADE_TOKEN);
            if request.connection == wanted_connection && request.upgrade == wanted_upgrade {
                (TcpClientAction::UpgradeToWebSocket(request.sec_websocket_key), None)
            } else {
                (TcpClientAction::NoAction, Some(bytes_of(OK_RESPONSE)))
            }
        },
    }
}

/// The WebSocket handler: the text of a frame is a message for the
/// application, or a request to shut the server down; a frame that cannot
/// be decoded is dropped.
pub fn handle_websocket_request(data: &[u8]) -> (r: TcpClientAction)
    ensures
        r@ == handler_action(TcpClientType::WebSocket, data@),
{
    proof {
        assert(data@.subrange(0, data@.len() as int) =~= data@);
    }
    match parse_websocket_frame(data, data.len()) {
        Ok(content) => {
            let shutdown: String = String::from_str(SHUTDOWN_COMMAND);
            if content == shutdown {
                TcpClientAction::RequestServerShutdown
            } else {
                TcpClientAction::HandleMessage(content)
            }
        },
        Err(_) => TcpClientAction::NoAction,
    }
}

/// The state of one connection's worker.
pub struct TcpClientHandler {
    pub client_type: TcpClientType,
    pub is_connected: bool,
}

impl TcpClientHandler {
    /// A worker that has just taken over its socket: connected, speaking
    /// HTTP, and reporting `Connected`.
    pub fn handle_new_client() -> (r: (TcpClientHandler, ClientEvent))
        ensures
            r.0.client_type == TcpClientType::Http,
            r.0.is_connected,
            r.1@ == EventView::Connected,
    {
        (TcpClientHandler { client_type: TcpClientType::Http, is_connected: true }, ClientEvent::Connected)
    }

    /// Carries out `action` from the installed handler.
    fn handle_request(&mut self, action: TcpClientAction, reply: Option<Vec<u8>>) -> (r: StepOutput)
        requires
            old(self).is_connected,
        ensures
            ({
                let v = apply_action(old(self).client_type, action@, opt_bytes(reply));
                &&& final(self).client_type == v.mode
                &&& final(self).is_connected == v.connected
                &&& r@ == (v.write, v.event)
            }),
    {
        match action {
            TcpClientAction::NoAction => StepOutput { write: reply, event: None },
            TcpClientAction::CloseConnection => {
                self.is_connected = false;
                StepOutput { write: None, event: Some(ClientEvent::ClientDisconnect) }
            },
            TcpClientAction::HandleMessage(message) => StepOutput {
                write: None,
                event: Some(ClientEvent::Message(message)),
            },
            TcpClientAction::UpgradeToWebSocket(key) => {
                let response: String = upgrade_to_websocket(&key);
                self.client_type = TcpClientType::WebSocket;
                StepOutput {
                    write: Some(bytes_of(response.as_str())),
                    event: Some(ClientEvent::UpgradeToWebSocket),
                }
            },
            TcpClientAction::RequestServerShutdown => StepOutput {
                write: None,
                event: Some(ClientEvent::ShutdownServer),
            },
        }
    }

    /// Handles one input and returns what to write and to report. A message
    /// from the server is sent only once the connection speaks WebSocket,
    /// and only if it fits a frame of the short length form.
    pub fn step(&mut self, input: WorkerInput) -> (r: StepOutput)
        ensures
            ({
                let v = worker_step(old(self).client_type, old(self).is_connected, input@);
                &&& final(self).client_type == v.mode
                &&& final(self).is_connected == v.connected
                &&& r@ == (v.write, v.event)
            }),
    {
        if !self.is_connected {
            return StepOutput { write: None, event: None };
        }
        match input {
            WorkerInput::Read(ReadOutcome::Data(data)) => {
                match self.client_type {
                    TcpClientType::Http => {
                        let (action, reply) = handle_http_request(data.as_slice());
                        self.handle_request(action, reply)
                    },
                    TcpClientType::WebSocket => {
                        let action = handle_websocket_request(data.as_slice());
                        self.handle_request(action, None)
                    },
                }
            },
            WorkerInput::Read(ReadOutcome::Closed) => {
                self.is_connected = false;
                StepOutput { write: None, event: Some(ClientEvent::ClientDisconnect) }
            },
            WorkerInput::Read(ReadOutcome::WouldBlock) => StepOutput { write: None, event: None },
            WorkerInput::Read(ReadOutcome::Failed) => {
                self.is_connected = false;
                StepOutput { write: None, event: Some(ClientEvent::CommunicationError) }
            },
            WorkerInput::Server(Action::SendMessage(message)) => {
                if self.client_type == TcpClientType::WebSocket {
                    match build_websocket_frame(message.as_str()) {
                        Ok(frame) => StepOutput { write: Some(frame), event: None },
                        Err(_) => StepOutput { write: None, event: None },
                    }
                } else {
                    StepOutput { write: None, event: None }
                }
            },
            WorkerInput::Server(Action::Stop) => {
                self.is_connected = false;
                StepOutput { write: None, event: Some(ClientEvent::ClientDisconnect) }
            },
        }
    }

    /// The last event of a worker, once it is no longer connected.
    pub fn final_event(&self) -> (r: ClientEvent)
        requires
            !self.is_connected,
        ensures
            r@ == EventView::Disconnected,
    {
        ClientEvent::Disconnected
    }
}

/// The event of a step as a sequence of zero or one events.
pub open spec fn event_seq(e: Option<EventView>) -> Seq<EventView> {
    match e {
        Some(x) => seq![x],
        None => Seq::empty(),
    }
}

/// Mode and connectedness of a fresh worker after `inputs`.
pub open spec fn run_state(inputs: Seq<InputView>) -> (TcpClientType, bool)
    decreases inputs.len(),
{
    if inputs.len() == 0 {
        (TcpClientType::Http, true)
    } else {
        let prev = run_state(inputs.drop_last());
        let v = worker_step(prev.0, prev.1, inputs.last());
        (v.mode, v.connected)
    }
}

/// Events a fresh worker reports while it handles `inputs`.
pub open spec fn run_events(inputs: Seq<InputView>) -> Seq<EventView>
    decreases inputs.len(),
{
    if inputs.len() == 0 {
        Seq::empty()
    } else {
        let prev = run_state(inputs.drop_last());
        run_events(inputs.drop_last()) + event_seq(
            worker_step(prev.0, prev.1, inputs.last()).event,
        )
    }
}

/// Everything a worker reports upstream over a session fed `inputs`:
/// `Connected` on start, the events of its steps, and `Disconnected` once
/// it is no longer connected.
pub open spec fn session_events(inputs: Seq<InputView>) -> Seq<EventView> {
    seq![EventView::Connected] + run_events(inputs) + (if run_state(inputs).1 {
        Seq::empty()
    } else {
        seq![EventView::Disconnected]
    })
}

/// Steps report neither `Connected` nor `Disconnected`.
proof fn lemma_run_events_inner(inputs: Seq<InputView>)
    ensures
        forall|i: int|
            0 <= i < run_events(inputs).len() ==> !(#[trigger] run_events(inputs)[i] is Connected)
                && !(run_events(inputs)[i] is Disconnected),
    decreases inputs.len(),
{
    if inputs.len() > 0 {
        lemma_run_events_inner(inputs.drop_last());
        let prev = run_state(inputs.drop_last());
        let v = worker_step(prev.0, prev.1, inputs.last());
        let old_ev = run_events(inputs.drop_last());
        assert forall|i: int| 0 <= i < run_events(inputs).len() implies !(
        #[trigger] run_events(inputs)[i] is Connected) && !(run_events(inputs)[i] is Disconnected) by {
            if i >= old_ev.len() {
                assert(run_events(inputs)[i] == v.event->Some_0);
            } else {
                assert(run_events(inputs)[i] == old_ev[i]);
            }
        }
    }
}

/// Over every session, `Connected` is the first event and comes once, and
/// `Disconnected` comes at most once, as the last event, and does come once
/// the worker is no longer connected.
pub proof fn lemma_session_bracketed(inputs: Seq<InputView>)
    ensures
        session_events(inputs)[0] == EventView::Connected,
        forall|i: int|
            0 < i < session_events(inputs).len() ==> !(#[trigger] session_events(inputs)[i] is Connected),
        forall|i: int|
            0 <= i < session_events(inputs).len() - 1 ==> !(
            #[trigger] session_events(inputs)[i] is Disconnected),
        !run_state(inputs).1 ==> session_events(inputs).last() == EventView::Disconnected,
{
    lemma_run_events_inner(inputs);
    let ev = session_events(inputs);
    let run = run_events(inputs);
    assert forall|i: int| 0 < i < ev.len() implies !(#[trigger] ev[i] is Connected) by {
        if i <= run.len() {
            assert(ev[i] == run[i - 1]);
        }
    }
    assert forall|i: int| 0 <= i < ev.len() - 1 implies !(#[trigger] ev[i] is Disconnected) by {
        if 0 < i <= run.len() {
            assert(ev[i] == run[i - 1]);
        }
    }
}

/// A worker never goes back from WebSocket to HTTP.
pub proof fn lemma_mode_never_reverts(mode: TcpClientType, connected: bool, input: InputView)
    ensures
        mode == TcpClientType::WebSocket ==> worker_step(mode, connected, input).mode
            == TcpClientType::WebSocket,
        worker_step(mode, connected, input).mode != mode ==> worker_step(
            mode,
            connected,
            input,
        ).event == Some(EventView::UpgradeToWebSocket),
{
}

proof fn lemma_messages_follow_upgrade_run(inputs: Seq<InputView>)
    ensures
        run_state(inputs).0 == TcpClientType::WebSocket ==> exists|j: int|
            0 <= j < run_events(inputs).len() && #[trigger] run_events(inputs)[j]
                is UpgradeToWebSocket,
        forall|i: int|
            0 <= i < run_events(inputs).len() && (#[trigger] run_events(inputs)[i] is Message)
                ==> exists|j: int| 0 <= j < i && #[trigger] run_events(inputs)[j] is UpgradeToWebSocket,
    decreases inputs.len(),
{
    if inputs.len() > 0 {
        let pre = inputs.drop_last();
        lemma_messages_follow_upgrade_run(pre);
        let prev = run_state(pre);
        let v = worker_step(prev.0, prev.1, inputs.last());
        let old_ev = run_events(pre);
        let ev = run_events(inputs);
        assert(ev == old_ev + event_seq(v.event));
        lemma_mode_never_reverts(prev.0, prev.1, inputs.last());
        if run_state(inputs).0 == TcpClientType::WebSocket {
            if prev.0 == TcpClientType::WebSocket {
                let j = choose|j: int| 0 <= j < old_ev.len() && #[trigger] old_ev[j] is UpgradeToWebSocket;
                assert(ev[j] == old_ev[j]);
            } else {
                assert(ev[old_ev.len() as int] is UpgradeToWebSocket);
            }
        }
        assert forall|i: int| 0 <= i < ev.len() && (#[trigger] ev[i] is Message) implies exists|j: int|
            0 <= j < i && #[trigger] ev[j] is UpgradeToWebSocket by {
            if i < old_ev.len() {
                assert(ev[i] == old_ev[i]);
                let j = choose|j: int| 0 <= j < i && #[trigger] old_ev[j] is UpgradeToWebSocket;
                assert(ev[j] == old_ev[j]);
            } else {
                assert(prev.0 == TcpClientType::WebSocket);
                let j = choose|j: int| 0 <= j < old_ev.len() && #[trigger] old_ev[j] is UpgradeToWebSocket;
                assert(ev[j] == old_ev[j]);
            }
        }
    }
}

/// No application message reaches the server before the worker has
/// reported its upgrade to WebSocket.
pub proof fn lemma_messages_follow_upgrade(inputs: Seq<InputView>)
    ensures
        forall|i: int|
            0 <= i < session_events(inputs).len() && (#[trigger] session_events(inputs)[i] is Message)
                ==> exists|j: int| 0 <= j < i && #[trigger] session_events(inputs)[j] is UpgradeToWebSocket,
{
    lemma_messages_follow_upgrade_run(inputs);
    let ev = session_events(inputs);
    let run = run_events(inputs);
    assert forall|i: int| 0 <= i < ev.len() && (#[trigger] ev[i] is Message) implies exists|j: int|
        0 <= j < i && #[trigger] ev[j] is UpgradeToWebSocket by {
        if 0 < i <= run.len() {
            assert(ev[i] == run[i - 1]);
            let j = choose|j: int| 0 <= j < i - 1 && #[trigger] run[j] is UpgradeToWebSocket;
            assert(ev[j + 1] == run[j]);
        }
    }
}

/// Data that is not a request carrying both upgrade headers is answered
/// with exactly `HTTP/1.1 200 OK`, and nothing else happens in that step.
pub proof fn lemma_plain_request_answered_ok(d: Seq<u8>)
    requires
        !(valid_utf8(d) && is_upgrade_request(d)),
    ensures
        worker_step(TcpClientType::Http, true, InputView::Data(d)) == (StepView {
            mode: TcpClientType::Http,
            connected: true,
            write: Some(OK_RESPONSE.spec_bytes()),
            event: None,
        }),
{
}

} // verus!
