//! The decisions of the websocket client: where it connects, which socket
//! reads become network events, what its writer does with each outgoing
//! item, and when it counts as running.
use vstd::prelude::*;

use crate::shared::event::{ConnectionHandle, NetworkEvent};

verus! {

/// A parsed URL, handed untouched to the socket layer.
#[verifier::external_type_specification]
#[verifier::external_body]
pub struct ExUrl(url::Url);

/// What `url::Url::parse` makes of the text: the absolute URL it denotes,
/// or none where the text is no such URL.
pub uninterp spec fn url_parse(endpoint: Seq<char>) -> Option<url::Url>;

/// Calls `url::Url::parse`, which depends on its input alone. The contract
/// claims that the result is what that parse gives for the text (`None` on
/// a parse error); it says nothing of the URL's parts.
#[verifier::external_body]
fn parse_endpoint(endpoint: &str) -> (r: Option<url::Url>)
    ensures
        r == url_parse(endpoint@),
{
    url::Url::parse(endpoint).ok()
}

/// The address a connection attempt goes to: the endpoint parsed as a URL.
/// There is none, and no attempt is made, when the text is no URL.
pub fn connect_target(endpoint: &str) -> (r: Option<url::Url>)
    ensures
        r == url_parse(endpoint@),
{
    parse_endpoint(endpoint)
}

/// The handle of the server a client talks to: the nil UUID.
pub open spec fn server_handle_spec() -> ConnectionHandle {
    ConnectionHandle { uuid: 0 }
}

/// The handle that stands for the server in the client's events.
pub fn server_handle() -> (h: ConnectionHandle)
    ensures
        h == server_handle_spec(),
{
    ConnectionHandle { uuid: 0 }
}

/// The event reported once the socket is open.
pub fn connected_event() -> (ev: NetworkEvent)
    ensures
        ev == NetworkEvent::Connected(server_handle_spec()),
{
    NetworkEvent::Connected(server_handle())
}

/// What one read from the socket gave.
pub enum Frame {
    /// A binary frame, with its bytes.
    Binary(Vec<u8>),
    /// A text, ping, pong or close frame.
    Other,
    /// The read failed.
    ReadError,
}

/// The event a read becomes: a binary frame becomes a message from the
/// server; anything else becomes none.
pub open spec fn frame_event_spec(frame: Frame) -> Option<NetworkEvent> {
    match frame {
        Frame::Binary(b) => Some(NetworkEvent::Message(server_handle_spec(), b)),
        _ => None,
    }
}

/// Turns one read into the event it is reported as, if any.
pub fn frame_event(frame: Frame) -> (ev: Option<NetworkEvent>)
    ensures
        ev == frame_event_spec(frame),
{
    match frame {
        Frame::Binary(b) => Some(NetworkEvent::Message(server_handle(), b)),
        _ => None,
    }
}

/// The messages that a run of reads carries: one per binary frame, in order.
pub open spec fn binary_messages(frames: Seq<Frame>) -> Seq<NetworkEvent>
    decreases frames.len(),
{
    if frames.len() == 0 {
        Seq::empty()
    } else {
        let prev = binary_messages(frames.drop_last());
        match frames.last() {
            Frame::Binary(b) => prev.push(NetworkEvent::Message(server_handle_spec(), b)),
            _ => prev,
        }
    }
}

/// The events a session reports, read by read: the connected event, then
/// what `frame_event_spec` gives for each read.
pub open spec fn session_events(frames: Seq<Frame>) -> Seq<NetworkEvent>
    decreases frames.len(),
{
    if frames.len() == 0 {
        seq![NetworkEvent::Connected(server_handle_spec())]
    } else {
        let prev = session_events(frames.drop_last());
        match frame_event_spec(frames.last()) {
            Some(ev) => prev.push(ev),
            None => prev,
        }
    }
}

/// A session reports the connected event first, then one message per
/// binary frame, in the order the frames were read; other frames and failed
/// reads report nothing.
pub proof fn lemma_session_events(frames: Seq<Frame>)
    ensures
        session_events(frames) == seq![NetworkEvent::Connected(server_handle_spec())]
            + binary_messages(frames),
    decreases frames.len(),
{
    if frames.len() == 0 {
        assert(seq![NetworkEvent::Connected(server_handle_spec())] + Seq::<NetworkEvent>::empty()
            =~= seq![NetworkEvent::Connected(server_handle_spec())]);
    } else {
        let d = frames.drop_last();
        lemma_session_events(d);
        match frames.last() {
            Frame::Binary(b) => {
                let ev = NetworkEvent::Message(server_handle_spec(), b);
                assert(seq![NetworkEvent::Connected(server_handle_spec())] + binary_messages(
                    d,
                ).push(ev) =~= (seq![NetworkEvent::Connected(server_handle_spec())]
                    + binary_messages(d)).push(ev));
            },
            _ => {},
        }
    }
}

/// What polling a channel found: the writer polls the outgoing items, a
/// receive polls the incoming events.
pub enum Outgoing<M> {
    /// Nothing is waiting.
    Empty,
    /// The sending side is gone: nothing more will come.
    Closed,
    /// An item to send.
    Item(M),
}

/// What the writer does next.
pub enum WriterAction<M> {
    /// Poll again.
    Retry,
    /// End the writer.
    Stop,
    /// Send the item on the socket, then poll again whether or not the send
    /// succeeded.
    Write(M),
}

/// The writer's decision: poll again when nothing waits, stop when the
/// queue is closed, send an item that is there.
pub fn writer_step<M>(polled: Outgoing<M>) -> (a: WriterAction<M>)
    ensures
        match polled {
            Outgoing::Empty => a is Retry,
            Outgoing::Closed => a is Stop,
            Outgoing::Item(m) => a == WriterAction::Write(m),
        },
{
    match polled {
        Outgoing::Empty => WriterAction::Retry,
        Outgoing::Closed => WriterAction::Stop,
        Outgoing::Item(m) => WriterAction::Write(m),
    }
}

/// What the caller of a client does to it, as far as its running state
/// goes: connect, disconnect, or any call that only reads it (receiving,
/// sending, asking whether it runs).
pub enum SessionCall {
    Connect,
    Disconnect,
    Other,
}

/// The state a call leaves behind, from the state before it: whether there
/// is a socket task, and whether there are the two channel ends. A connect
/// sets both; a disconnect removes the task and keeps the ends; other calls
/// change nothing.
pub open spec fn next_status(before: (bool, bool), call: SessionCall) -> (bool, bool) {
    match call {
        SessionCall::Connect => (true, true),
        SessionCall::Disconnect => (false, before.1),
        SessionCall::Other => before,
    }
}

/// The state of a client after a run of calls from a new client.
pub open spec fn status_after(calls: Seq<SessionCall>) -> (bool, bool)
    decreases calls.len(),
{
    if calls.len() == 0 {
        (false, false)
    } else {
        next_status(status_after(calls.drop_last()), calls.last())
    }
}

/// The run holds a connect with no disconnect after it.
pub open spec fn connected_since(calls: Seq<SessionCall>) -> bool {
    exists|i: int|
        0 <= i < calls.len() && calls[i] is Connect && forall|j: int|
            i < j < calls.len() ==> !(#[trigger] calls[j] is Disconnect)
}

/// A client runs exactly when the calls made on it since it was created
/// hold a connect that no disconnect followed.
pub proof fn lemma_running_law(calls: Seq<SessionCall>)
    ensures
        (status_after(calls).0 && status_after(calls).1) <==> connected_since(calls),
        status_after(calls).0 ==> status_after(calls).1,
    decreases calls.len(),
{
    if calls.len() > 0 {
        let d = calls.drop_last();
        lemma_running_law(d);
        let n = calls.len() - 1;
        match calls.last() {
            SessionCall::Connect => {
                assert(calls[n] is Connect);
            },
            SessionCall::Disconnect => {
                if connected_since(calls) {
                    let i = choose|i: int|
                        0 <= i < calls.len() && calls[i] is Connect && forall|j: int|
                            i < j < calls.len() ==> !(#[trigger] calls[j] is Disconnect);
                    assert(i != n);
                    assert(!(calls[n] is Disconnect));
                }
            },
            SessionCall::Other => {
                if connected_since(calls) {
                    let i = choose|i: int|
                        0 <= i < calls.len() && calls[i] is Connect && forall|j: int|
                            i < j < calls.len() ==> !(#[trigger] calls[j] is Disconnect);
                    assert(i < n);
                    assert(d[i] is Connect);
                    assert forall|j: int| i < j < d.len() implies !(#[trigger] d[j] is Disconnect) by {
                        assert(d[j] == calls[j]);
                        assert(!(calls[j] is Disconnect));
                    }
                }
                if connected_since(d) {
                    let i = choose|i: int|
                        0 <= i < d.len() && d[i] is Connect && forall|j: int|
                            i < j < d.len() ==> !(#[trigger] d[j] is Disconnect);
                    assert(calls[i] is Connect);
                    assert forall|j: int| i < j < calls.len() implies !(#[trigger] calls[j] is Disconnect) by {
                        if j < n {
                            assert(d[j] == calls[j]);
                            assert(!(d[j] is Disconnect));
                        }
                    }
                }
            },
        }
    }
}

/// The running parts of a client: its socket task, the end it receives
/// events on, and the end it sends messages through.
pub struct ClientSession<H, R, S> {
    task: Option<H>,
    receiver: Option<R>,
    sender: Option<S>,
}

impl<H, R, S> ClientSession<H, R, S> {
    /// The two ends come and stay together, and a task runs only with them.
    #[verifier::type_invariant]
    spec fn ends_with_task(self) -> bool {
        &&& (self.receiver is Some <==> self.sender is Some)
        &&& (self.task is Some ==> self.receiver is Some)
    }

    /// The socket task, if one was started and not stopped.
    pub closed spec fn task_slot(&self) -> Option<H> {
        self.task
    }

    /// The receiving end, once a connection was started.
    pub closed spec fn receiver_slot(&self) -> Option<R> {
        self.receiver
    }

    /// The sending end, once a connection was started.
    pub closed spec fn sender_slot(&self) -> Option<S> {
        self.sender
    }

    /// Whether there is a task, and whether there are both ends.
    pub open spec fn status(&self) -> (bool, bool) {
        (self.task_slot() is Some, self.receiver_slot() is Some && self.sender_slot() is Some)
    }

    /// A client runs when it has a task and both ends.
    pub open spec fn running(&self) -> bool {
        &&& self.task_slot() is Some
        &&& self.receiver_slot() is Some
        &&& self.sender_slot() is Some
    }

    /// A client that never connected.
    pub fn new() -> (r: Self)
        ensures
            r.task_slot() is None,
            r.receiver_slot() is None,
            r.sender_slot() is None,
            r.status() == status_after(Seq::empty()),
    {
        ClientSession { task: None, receiver: None, sender: None }
    }

    /// Whether the client runs: exactly when it has a task.
    pub fn is_running(&self) -> (r: bool)
        ensures
            r == self.running(),
            r == (self.task_slot() is Some),
    {
        proof {
            use_type_invariant(self);
        }
        self.task.is_some() && self.receiver.is_some() && self.sender.is_some()
    }

    /// Records a started connection: its task and both ends replace what
    /// was there, and the client runs.
    pub fn attach(&mut self, task: H, receiver: R, sender: S)
        ensures
            final(self).task_slot() == Some(task),
            final(self).receiver_slot() == Some(receiver),
            final(self).sender_slot() == Some(sender),
            final(self).status() == next_status(old(self).status(), SessionCall::Connect),
            final(self).running(),
    {
        *self = ClientSession { task: Some(task), receiver: Some(receiver), sender: Some(sender) };
    }

    /// Takes the socket task out, if there is one, so that it can be told to
    /// close and be stopped; the ends stay. The client no longer runs, and a
    /// second call gives nothing.
    pub fn detach(&mut self) -> (r: Option<H>)
        ensures
            r == old(self).task_slot(),
            final(self).task_slot() is None,
            final(self).receiver_slot() == old(self).receiver_slot(),
            final(self).sender_slot() == old(self).sender_slot(),
            final(self).status() == next_status(old(self).status(), SessionCall::Disconnect),
            !final(self).running(),
    {
        proof {
            use_type_invariant(&*self);
        }
        let mut task = None;
        std::mem::swap(&mut task, &mut self.task);
        task
    }

    /// The receiving end, if a connection was started.
    pub fn receiver(&self) -> (r: Option<&R>)
        ensures
            r is Some <==> self.receiver_slot() is Some,
            r matches Some(x) ==> *x == self.receiver_slot()->0,
    {
        match &self.receiver {
            Some(x) => Some(x),
            None => None,
        }
    }

    /// The sending end, if a connection was started.
    pub fn sender(&self) -> (r: Option<&S>)
        ensures
            r is Some <==> self.sender_slot() is Some,
            r matches Some(x) ==> *x == self.sender_slot()->0,
    {
        match &self.sender {
            Some(x) => Some(x),
            None => None,
        }
    }
}

/// What a receive attempt gives the caller: the item when there is one;
/// nothing when the queue is empty or closed.
pub fn received<M>(polled: Outgoing<M>) -> (r: Option<M>)
    ensures
        match polled {
            Outgoing::Item(m) => r == Some(m),
            _ => r is None,
        },
{
    match polled {
        Outgoing::Item(m) => Some(m),
        _ => None,
    }
}

} // verus!
