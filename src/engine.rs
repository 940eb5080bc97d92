//! The server engine's bookkeeping: one tracker per connection, and what to
//! do with each event from a worker and each request from the supervisor.
use vstd::prelude::*;
use vstd::string::*;
use crate::connection::{ClientEvent, EventView, TcpClientType};
use crate::handler::ClientHandler;

verus! {

/// Text passed to the application for a worker's communication error.
pub const COMMUNICATION_ERROR_TEXT: &'static str = "Client Communication Error";

/// How long, in milliseconds, the shutdown drain waits for workers that do
/// not answer before it considers them gone.
pub const DRAIN_TIMEOUT_MS: u64 = 10000;

/// What the supervisor or the application asks of one connection.
pub enum Action {
    SendMessage(String),
    Stop,
}

/// A request for the connection named by `client_id`.
pub struct Request {
    pub client_id: String,
    pub action: Action,
}

/// The configuration of one server engine: where it listens, its name, the
/// application it serves, and its channels to the supervisor.
pub struct TcpServer<H: ClientHandler> {
    pub address: String,
    pub name: String,
    pub handler: H,
    pub main_to_server_rx: std::sync::mpsc::Receiver<Request>,
    pub server_to_main_tx: std::sync::mpsc::Sender<String>,
}

/// The engine's record of one connection.
pub struct TcpClient {
    pub client_id: String,
    pub client_type: TcpClientType,
    pub is_connected: bool,
    /// The worker has sent its last event.
    pub has_ended: bool,
}

/// `TcpClient` as plain values.
pub struct TrackerView {
    pub client_id: Seq<char>,
    pub mode: TcpClientType,
    pub connected: bool,
    pub ended: bool,
}

impl View for TcpClient {
    type V = TrackerView;

    open spec fn view(&self) -> TrackerView {
        TrackerView {
            client_id: self.client_id@,
            mode: self.client_type,
            connected: self.is_connected,
            ended: self.has_ended,
        }
    }
}

/// The tracker of a connection that was just accepted.
pub open spec fn fresh_tracker(id: Seq<char>) -> TrackerView {
    TrackerView { client_id: id, mode: TcpClientType::Http, connected: false, ended: false }
}

/// A tracker after its worker reported `e`.
pub open spec fn tracker_after(t: TrackerView, e: EventView) -> TrackerView {
    match e {
        EventView::Connected => TrackerView { connected: true, ..t },
        EventView::UpgradeToWebSocket => TrackerView { mode: TcpClientType::WebSocket, ..t },
        EventView::ClientDisconnect => TrackerView { connected: false, ..t },
        EventView::Disconnected => TrackerView { connected: false, ended: true, ..t },
        _ => t,
    }
}

/// A tracker after its worker reported each of `es` in turn.
pub open spec fn tracker_after_all(t: TrackerView, es: Seq<EventView>) -> TrackerView
    decreases es.len(),
{
    if es.len() == 0 {
        t
    } else {
        tracker_after(tracker_after_all(t, es.drop_last()), es.last())
    }
}

/// What the engine does for the application or the supervisor in answer
/// to an event.
pub enum EngineOutput {
    Nothing,
    /// Call `on_client_connected`.
    ClientConnected(String),
    /// Call `on_message_received`.
    MessageReceived(String, String),
    /// Tell the supervisor to shut down.
    Shutdown,
}

/// `EngineOutput` as plain values.
pub enum OutputView {
    Nothing,
    ClientConnected(Seq<char>),
    MessageReceived(Seq<char>, Seq<char>),
    Shutdown,
}

impl View for EngineOutput {
    type V = OutputView;

    open spec fn view(&self) -> OutputView {
        match self {
            EngineOutput::Nothing => OutputView::Nothing,
            EngineOutput::ClientConnected(id) => OutputView::ClientConnected(id@),
            EngineOutput::MessageReceived(id, m) => OutputView::MessageReceived(id@, m@),
            EngineOutput::Shutdown => OutputView::Shutdown,
        }
    }
}

/// What the engine does in answer to event `e` from the connection `id`.
pub open spec fn engine_output(id: Seq<char>, e: EventView) -> OutputView {
    match e {
        EventView::Connected => OutputView::ClientConnected(id),
        EventView::ShutdownServer => OutputView::Shutdown,
        EventView::Message(m) => OutputView::MessageReceived(id, m),
        EventView::CommunicationError => OutputView::MessageReceived(id, COMMUNICATION_ERROR_TEXT@),
        _ => OutputView::Nothing,
    }
}

/// Where a request from the supervisor goes.
pub enum RouteDecision {
    /// Hand the request to the worker it names.
    Deliver(Request),
    /// The connection is unknown or not connected: drop the request.
    Drop,
    /// Leave the main loop and shut down.
    StopServer,
}

/// The trackers of all accepted connections.
pub struct ServerEngine {
    pub clients: Vec<TcpClient>,
}

impl ServerEngine {
    /// No two trackers share a client id.
    pub open spec fn wf(&self) -> bool {
        forall|i: int, j: int|
            0 <= i < j < self.clients@.len() ==> #[trigger] self.clients@[i].client_id@
                != #[trigger] self.clients@[j].client_id@
    }

    /// The tracker for `id` is at index `i`.
    pub open spec fn tracks_at(&self, id: Seq<char>, i: int) -> bool {
        0 <= i < self.clients@.len() && self.clients@[i].client_id@ == id
    }

    /// An engine that tracks nothing.
    pub fn new() -> (r: ServerEngine)
        ensures
            r.wf(),
            r.clients@.len() == 0,
    {
        ServerEngine { clients: Vec::new() }
    }

    /// Index of the tracker for `id`, if there is one.
    pub fn find(&self, id: &String) -> (r: Option<usize>)
        requires
            self.wf(),
        ensures
            r matches Some(i) ==> self.tracks_at(id@, i as int),
            r is None ==> forall|i: int| 0 <= i < self.clients@.len() ==> !self.tracks_at(id@, i),
    {
        let mut i: usize = 0;
        while i < self.clients.len()
            invariant
                i <= self.clients@.len(),
                forall|j: int| 0 <= j < i ==> !self.tracks_at(id@, j),
            decreases self.clients@.len() - i,
        {
            if self.clients[i].client_id == *id {
                return Some(i);
            }
            i = i + 1;
        }
        None
    }

    /// Starts tracking a connection that was just accepted. A tracker left
    /// under the same id by an earlier connection is replaced in place;
    /// otherwise the new tracker goes at the end.
    pub fn accept_client(&mut self, client_id: String)
        requires
            old(self).wf(),
        ensures
            final(self).wf(),
            (exists|i: int| old(self).tracks_at(client_id@, i)) ==> {
                &&& final(self).clients@.len() == old(self).clients@.len()
                &&& forall|i: int|
                    0 <= i < old(self).clients@.len() ==> (#[trigger] final(self).clients@[i])@ == (
                    if old(self).clients@[i].client_id@ == client_id@ {
                        fresh_tracker(client_id@)
                    } else {
                        old(self).clients@[i]@
                    })
            },
            (forall|i: int| !old(self).tracks_at(client_id@, i)) ==> {
                &&& final(self).clients@.len() == old(self).clients@.len() + 1
                &&& forall|i: int|
                    0 <= i < old(self).clients@.len() ==> (#[trigger] final(self).clients@[i])@
                        == old(self).clients@[i]@
                &&& final(self).clients@[old(self).clients@.len() as int]@ == fresh_tracker(
                    client_id@,
                )
            },
    {
        let ghost before = self.clients@;
        let tracker = TcpClient {
            client_id: client_id.clone(),
            client_type: TcpClientType::Http,
            is_connected: false,
            has_ended: false,
        };
        match self.find(&client_id) {
            Some(i) => {
                self.clients.set(i, tracker);
                proof {
                    assert forall|k: int| 0 <= k < before.len() && k != i implies before[k].client_id@
                        != client_id@ by {
                        if k < i {
                            assert(before[k].client_id@ != before[i as int].client_id@);
                        } else {
                            assert(before[i as int].client_id@ != before[k].client_id@);
                        }
                    }
                    assert forall|a: int, b: int| 0 <= a < b < self.clients@.len() implies #[trigger] self.clients@[a].client_id@
                        != #[trigger] self.clients@[b].client_id@ by {
                        assert(before[a].client_id@ != before[b].client_id@);
                    }
                }
            },
            None => {
                self.clients.push(tracker);
                proof {
                    assert forall|a: int, b: int| 0 <= a < b < self.clients@.len() implies #[trigger] self.clients@[a].client_id@
                        != #[trigger] self.clients@[b].client_id@ by {
                        if b == before.len() {
                            assert(!old(self).tracks_at(client_id@, a));
                        } else {
                            assert(before[a].client_id@ != before[b].client_id@);
                        }
                    }
                    assert forall|k: int| !old(self).tracks_at(client_id@, k) by {}
                }
            },
        }
    }

    /// Applies an event from the worker of `client_id` to its tracker and
    /// says what to do for the application or the supervisor. An event for
    /// an unknown id changes nothing.
    pub fn handle_client_event(&mut self, client_id: &String, event: ClientEvent) -> (r: EngineOutput)
        requires
            old(self).wf(),
        ensures
            final(self).wf(),
            final(self).clients@.len() == old(self).clients@.len(),
            forall|i: int|
                0 <= i < old(self).clients@.len() ==> (#[trigger] final(self).clients@[i])@ == (if old(
                    self,
                ).clients@[i].client_id@ == client_id@ {
                    tracker_after(old(self).clients@[i]@, event@)
                } else {
                    old(self).clients@[i]@
                }),
            (exists|i: int| old(self).tracks_at(client_id@, i)) ==> r@ == engine_output(
                client_id@,
                event@,
            ),
            (forall|i: int| !old(self).tracks_at(client_id@, i)) ==> r@ == OutputView::Nothing,
    {
        let found = self.find(client_id);
        match found {
            None => {
                proof {
                    assert forall|i: int| 0 <= i < self.clients@.len() implies self.clients@[i].client_id@
                        != client_id@ by {
                        assert(!self.tracks_at(client_id@, i));
                    }
                }
                EngineOutput::Nothing
            },
            Some(i) => {
                let ghost before = self.clients@;
                let mut tracker = self.clients[i].clone_tracker();
                let out = match event {
                    ClientEvent::Connected => {
                        tracker.is_connected = true;
                        EngineOutput::ClientConnected(client_id.clone())
                    },
                    ClientEvent::UpgradeToWebSocket => {
                        tracker.client_type = TcpClientType::WebSocket;
                        EngineOutput::Nothing
                    },
                    ClientEvent::ClientDisconnect => {
                        tracker.is_connected = false;
                        EngineOutput::Nothing
                    },
                    ClientEvent::Disconnected => {
                        tracker.is_connected = false;
                        tracker.has_ended = true;
                        EngineOutput::Nothing
                    },
                    ClientEvent::ShutdownServer => EngineOutput::Shutdown,
                    ClientEvent::Message(m) => EngineOutput::MessageReceived(client_id.clone(), m),
                    ClientEvent::CommunicationError => EngineOutput::MessageReceived(
                        client_id.clone(),
                        String::from_str(COMMUNICATION_ERROR_TEXT),
                    ),
                };
                self.clients.set(i, tracker);
                proof {
                    assert forall|k: int| 0 <= k < before.len() && k != i implies before[k].client_id@
                        != client_id@ by {
                        if k < i {
                            assert(before[k].client_id@ != before[i as int].client_id@);
                        } else {
                            assert(before[i as int].client_id@ != before[k].client_id@);
                        }
                    }
                    assert forall|a: int, b: int| 0 <= a < b < self.clients@.len() implies #[trigger] self.clients@[a].client_id@
                        != #[trigger] self.clients@[b].client_id@ by {
                        assert(before[a].client_id@ != before[b].client_id@);
                    }
                }
                out
            },
        }
    }

    /// Decides where a request from the supervisor goes: a message is
    /// delivered only to a tracked connection that is connected.
    pub fn route_request(&self, request: Request) -> (r: RouteDecision)
        requires
            self.wf(),
        ensures
            request.action is Stop ==> r is StopServer,
            request.action is SendMessage ==> !(r is StopServer),
            request.action is SendMessage ==> ((exists|i: int|
                self.tracks_at(request.client_id@, i) && #[trigger] self.clients@[i].is_connected)
                <==> r is Deliver),
            r matches RouteDecision::Deliver(q) ==> q.client_id@ == request.client_id@ && q.action
                is SendMessage && request.action is SendMessage && q.action->SendMessage_0@
                == request.action->SendMessage_0@,
    {
        match request.action {
            Action::Stop => RouteDecision::StopServer,
            Action::SendMessage(text) => {
                match self.find(&request.client_id) {
                    Some(i) => {
                        if self.clients[i].is_connected {
                            RouteDecision::Deliver(Request { client_id: request.client_id, action: Action::SendMessage(text) })
                        } else {
                            proof {
                                assert forall|j: int| self.tracks_at(request.client_id@, j) implies !#[trigger] self.clients@[j].is_connected by {
                                    if j != i {
                                        if j < i {
                                            assert(self.clients@[j].client_id@ != self.clients@[i as int].client_id@);
                                        } else {
                                            assert(self.clients@[i as int].client_id@ != self.clients@[j].client_id@);
                                        }
                                    }
                                }
                            }
                            RouteDecision::Drop
                        }
                    },
                    None => RouteDecision::Drop,
                }
            },
        }
    }

    /// One `Stop` request for each tracked connection, in tracker order.
    pub fn stop_requests(&self) -> (r: Vec<Request>)
        ensures
            r@.len() == self.clients@.len(),
            forall|i: int|
                0 <= i < r@.len() ==> (#[trigger] r@[i]).client_id@ == self.clients@[i].client_id@
                    && r@[i].action is Stop,
    {
        let mut out: Vec<Request> = Vec::new();
        let mut i: usize = 0;
        while i < self.clients.len()
            invariant
                i <= self.clients@.len(),
                out@.len() == i,
                forall|k: int|
                    0 <= k < i ==> (#[trigger] out@[k]).client_id@ == self.clients@[k].client_id@
                        && out@[k].action is Stop,
            decreases self.clients@.len() - i,
        {
            out.push(Request { client_id: self.clients[i].client_id.clone(), action: Action::Stop });
            i = i + 1;
        }
        out
    }

    /// Every tracked worker has sent its last event.
    pub fn drain_complete(&self) -> (r: bool)
        ensures
            r == forall|i: int| 0 <= i < self.clients@.len() ==> #[trigger] self.clients@[i].has_ended,
    {
        let mut i: usize = 0;
        while i < self.clients.len()
            invariant
                i <= self.clients@.len(),
                forall|k: int| 0 <= k < i ==> #[trigger] self.clients@[k].has_ended,
            decreases self.clients@.len() - i,
        {
            if !self.clients[i].has_ended {
                return false;
            }
            i = i + 1;
        }
        true
    }
}

impl ServerEngine {
    /// The shutdown drain is over: every worker has ended, or the drain has
    /// waited `waited_ms` milliseconds, which reaches the bound.
    pub fn drain_finished(&self, waited_ms: u64) -> (r: bool)
        ensures
            r == ((forall|i: int| 0 <= i < self.clients@.len() ==> #[trigger] self.clients@[i].has_ended)
                || waited_ms >= DRAIN_TIMEOUT_MS),
    {
        waited_ms >= DRAIN_TIMEOUT_MS || self.drain_complete()
    }
}

impl TcpClient {
    /// A copy of this tracker.
    pub fn clone_tracker(&self) -> (r: TcpClient)
        ensures
            r@ == self@,
    {
        TcpClient {
            client_id: self.client_id.clone(),
            client_type: self.client_type,
            is_connected: self.is_connected,
            has_ended: self.has_ended,
        }
    }
}

/// Once a tracker has seen its worker's upgrade, it stays in WebSocket
/// mode whatever its worker reports afterwards.
pub proof fn lemma_upgrade_sticks(t: TrackerView, es: Seq<EventView>)
    requires
        t.mode == TcpClientType::WebSocket || exists|k: int|
            0 <= k < es.len() && #[trigger] es[k] is UpgradeToWebSocket,
    ensures
        tracker_after_all(t, es).mode == TcpClientType::WebSocket,
    decreases es.len(),
{
    if es.len() > 0 {
        let pre = es.drop_last();
        if es.last() is UpgradeToWebSocket {
        } else {
            if t.mode != TcpClientType::WebSocket {
                let k = choose|k: int| 0 <= k < es.len() && #[trigger] es[k] is UpgradeToWebSocket;
                assert(k < es.len() - 1);
                assert(pre[k] == es[k]);
            }
            lemma_upgrade_sticks(t, pre);
        }
    }
}

} // verus!
