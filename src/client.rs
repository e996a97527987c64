use std::collections::VecDeque;

use vstd::prelude::*;
use vstd::string::StringExecFns;

use crate::address::{parse_url, url_accepts};
use crate::event::{IncomingFrame, ReaderStep, WebsocketClientEvent, WriteAction, WriterStep};
use crate::handshake::{classify_client_frame, client_event_of};

verus! {

/// How many events from the connection may wait for the host.
pub const CLIENT_INBOUND_CAPACITY: usize = 10;

/// How many messages may wait for the writer.
pub const CLIENT_OUTBOUND_CAPACITY: usize = 10;

/// A counter that stops at its largest value.
pub open spec fn bump(n: u64) -> u64 {
    if n == u64::MAX {
        n
    } else {
        (n + 1) as u64
    }
}

pub open spec fn opt_view(o: Option<String>) -> Option<Seq<char>> {
    match o {
        Some(s) => Some(s@),
        None => None,
    }
}

/// The mathematical state of a client bridge.
pub struct ClientModel {
    /// The address that `open` recorded and the next setup step has not taken.
    pub pending: Option<Seq<char>>,
    /// Cleared by `close`, never set again.
    pub running: bool,
    /// A connection was started and neither end has finished it.
    pub connected: bool,
    /// Events that wait for the host, oldest first.
    pub inbound: Seq<WebsocketClientEvent>,
    /// Messages that wait for the writer, oldest first.
    pub outbound: Seq<String>,
    /// Messages that `broadcast` could not queue.
    pub dropped: u64,
    /// Events that the reader could not queue.
    pub lost: u64,
}

/// What the setup step asks of the host.
#[derive(Debug)]
pub enum ClientSetup {
    /// Nothing to do.
    Idle,
    /// Connect to this URL and run the connection's task.
    Connect(url::Url),
    /// The recorded address is not a URL: the attempt ends here.
    Rejected,
}

impl ClientModel {
    pub open spec fn initial() -> Self {
        ClientModel {
            pending: None,
            running: true,
            connected: false,
            inbound: Seq::empty(),
            outbound: Seq::empty(),
            dropped: 0,
            lost: 0,
        }
    }

    pub open spec fn after_open(self, address: Seq<char>) -> Self {
        ClientModel { pending: Some(address), ..self }
    }

    /// The address that a setup step takes, if it takes one.
    pub open spec fn address_to_take(self) -> Option<Seq<char>> {
        if self.running {
            self.pending
        } else {
            None
        }
    }

    pub open spec fn after_take(self) -> Self {
        if self.address_to_take() is Some {
            ClientModel { pending: None, ..self }
        } else {
            self
        }
    }

    /// A connection to an accepted address starts with empty queues.
    pub open spec fn after_start(self) -> Self {
        ClientModel { connected: true, inbound: Seq::empty(), outbound: Seq::empty(), ..self }
    }

    pub open spec fn after_broadcast(self, message: String) -> Self {
        if self.running && self.connected && self.outbound.len() < CLIENT_OUTBOUND_CAPACITY {
            ClientModel { outbound: self.outbound.push(message), ..self }
        } else {
            ClientModel { dropped: bump(self.dropped), ..self }
        }
    }

    /// The state after `broadcast` of each message in turn.
    pub open spec fn after_broadcasts(self, messages: Seq<String>) -> Self
        decreases messages.len(),
    {
        if messages.len() == 0 {
            self
        } else {
            self.after_broadcasts(messages.drop_last()).after_broadcast(messages.last())
        }
    }

    pub open spec fn drained(self) -> Option<WebsocketClientEvent> {
        if self.inbound.len() == 0 {
            None
        } else {
            Some(self.inbound[0])
        }
    }

    pub open spec fn after_drain(self) -> Self {
        if self.inbound.len() == 0 {
            self
        } else {
            ClientModel { inbound: self.inbound.drop_first(), ..self }
        }
    }

    /// The state after `k` drains in a row.
    pub open spec fn after_drains(self, k: nat) -> Self
        decreases k,
    {
        if k == 0 {
            self
        } else {
            self.after_drain().after_drains((k - 1) as nat)
        }
    }

    pub open spec fn after_close(self) -> Self {
        ClientModel { running: false, connected: false, outbound: Seq::empty(), ..self }
    }

    pub open spec fn deliver(self, event: WebsocketClientEvent) -> Self {
        if self.inbound.len() < CLIENT_INBOUND_CAPACITY {
            ClientModel { inbound: self.inbound.push(event), ..self }
        } else {
            ClientModel { lost: bump(self.lost), ..self }
        }
    }

    pub open spec fn frame_step(self, frame: IncomingFrame) -> ReaderStep {
        if !self.running || !self.connected {
            ReaderStep::Stop
        } else {
            match frame {
                IncomingFrame::Text(_) => ReaderStep::Continue,
                IncomingFrame::Other => ReaderStep::Continue,
                _ => ReaderStep::Stop,
            }
        }
    }

    pub open spec fn after_frame(self, frame: IncomingFrame) -> Self {
        if !self.running || !self.connected {
            self
        } else {
            match frame {
                IncomingFrame::Text(t) => self.deliver(client_event_of(t)),
                IncomingFrame::Other => self,
                _ => ClientModel {
                    connected: false,
                    ..self.deliver(WebsocketClientEvent::OnClose)
                },
            }
        }
    }

    pub open spec fn write_step(self) -> WriteAction {
        if !self.running || !self.connected {
            WriteAction::Stop
        } else if self.outbound.len() == 0 {
            WriteAction::Wait
        } else {
            WriteAction::Write(self.outbound[0]@)
        }
    }

    pub open spec fn after_write(self) -> Self {
        if self.running && self.connected && self.outbound.len() > 0 {
            ClientModel { outbound: self.outbound.drop_first(), ..self }
        } else {
            self
        }
    }

    /// The texts that `k` writer steps in a row write, up to the first step
    /// that writes nothing.
    pub open spec fn written(self, k: nat) -> Seq<Seq<char>>
        decreases k,
    {
        if k == 0 {
            Seq::empty()
        } else {
            match self.write_step() {
                WriteAction::Write(w) => seq![w] + self.after_write().written((k - 1) as nat),
                _ => Seq::empty(),
            }
        }
    }
}

/// The client side of the bridge: the host's handle on one connection.
pub struct WebsocketResource {
    address: Option<String>,
    running: bool,
    connected: bool,
    inbound: VecDeque<WebsocketClientEvent>,
    outbound: VecDeque<String>,
    dropped: u64,
    lost: u64,
}

impl View for WebsocketResource {
    type V = ClientModel;

    closed spec fn view(&self) -> ClientModel {
        ClientModel {
            pending: opt_view(self.address),
            running: self.running,
            connected: self.connected,
            inbound: self.inbound@,
            outbound: self.outbound@,
            dropped: self.dropped,
            lost: self.lost,
        }
    }
}

impl Default for WebsocketResource {
    fn default() -> (r: Self)
        ensures
            r@ == ClientModel::initial(),
    {
        Self::new()
    }
}

impl WebsocketResource {
    /// A bridge with no connection, ready to open one.
    pub fn new() -> (r: Self)
        ensures
            r@ == ClientModel::initial(),
    {
        WebsocketResource {
            address: None,
            running: true,
            connected: false,
            inbound: VecDeque::new(),
            outbound: VecDeque::new(),
            dropped: 0,
            lost: 0,
        }
    }

    /// Records the address to connect to; the next setup step connects.
    /// A second call before that step replaces the address.
    pub fn open(&mut self, address: &str)
        ensures
            final(self)@ == old(self)@.after_open(address@),
    {
        self.address = Some(String::from_str(address));
    }

    /// Queues a message for the writer. Without a live connection, or with
    /// the queue full, the message is dropped and counted instead: the host
    /// never waits here.
    pub fn broadcast(&mut self, message: String)
        ensures
            final(self)@ == old(self)@.after_broadcast(message),
    {
        if self.running && self.connected && self.outbound.len() < CLIENT_OUTBOUND_CAPACITY {
            self.outbound.push_back(message);
        } else {
            self.dropped = self.dropped.saturating_add(1);
        }
    }

    /// Hands the oldest waiting event to the host, or `None` when no event
    /// waits; then nothing changes.
    pub fn drain_event(&mut self) -> (r: Option<WebsocketClientEvent>)
        ensures
            r == old(self)@.drained(),
            final(self)@ == old(self)@.after_drain(),
    {
        self.inbound.pop_front()
    }

    /// Stops the bridge for good: the tasks stop at their next step, queued
    /// messages are discarded, and events already queued can still be drained.
    pub fn close(&mut self)
        ensures
            final(self)@ == old(self)@.after_close(),
    {
        self.running = false;
        self.connected = false;
        self.outbound = VecDeque::new();
    }

    /// Takes the recorded address, if the bridge is running and holds one.
    pub fn take_pending_address(&mut self) -> (r: Option<String>)
        ensures
            opt_view(r) == old(self)@.address_to_take(),
            final(self)@ == old(self)@.after_take(),
    {
        if self.running {
            self.address.take()
        } else {
            None
        }
    }

    /// Starts a connection to a parsed address with fresh queues, or ends the
    /// attempt where the address did not parse.
    pub fn start_connection(&mut self, parsed: Result<url::Url, url::ParseError>) -> (r:
        ClientSetup)
        ensures
            parsed is Ok ==> r is Connect && final(self)@ == old(self)@.after_start(),
            parsed is Err ==> r is Rejected && final(self)@ == old(self)@,
    {
        match parsed {
            Ok(u) => {
                self.connected = true;
                self.inbound = VecDeque::new();
                self.outbound = VecDeque::new();
                ClientSetup::Connect(u)
            },
            Err(_) => ClientSetup::Rejected,
        }
    }

    /// The host's setup step: where an address waits, it is taken and, if it
    /// is a URL, a connection starts.
    pub fn setup(&mut self) -> (r: ClientSetup)
        ensures
            match old(self)@.address_to_take() {
                None => r is Idle && final(self)@ == old(self)@,
                Some(a) => if url_accepts(a) {
                    r is Connect && final(self)@ == old(self)@.after_take().after_start()
                } else {
                    r is Rejected && final(self)@ == old(self)@.after_take()
                },
            },
    {
        match self.take_pending_address() {
            None => ClientSetup::Idle,
            Some(a) => {
                let parsed = parse_url(a.as_str());
                self.start_connection(parsed)
            },
        }
    }

    fn deliver(&mut self, event: WebsocketClientEvent)
        ensures
            final(self)@ == old(self)@.deliver(event),
    {
        if self.inbound.len() < CLIENT_INBOUND_CAPACITY {
            self.inbound.push_back(event);
        } else {
            self.lost = self.lost.saturating_add(1);
        }
    }

    /// The reader's step on one frame: a text frame becomes an event (the
    /// handshake frame the opening of the connection, any other a message),
    /// other frames are skipped, and the end of the stream or an error
    /// closes the connection. After `close` the reader stops at once.
    pub fn on_frame(&mut self, frame: IncomingFrame) -> (r: ReaderStep)
        ensures
            r == old(self)@.frame_step(frame),
            final(self)@ == old(self)@.after_frame(frame),
    {
        if !self.running || !self.connected {
            return ReaderStep::Stop;
        }
        match frame {
            IncomingFrame::Text(t) => {
                let e = classify_client_frame(t);
                self.deliver(e);
                ReaderStep::Continue
            },
            IncomingFrame::Other => ReaderStep::Continue,
            _ => {
                self.deliver(WebsocketClientEvent::OnClose);
                self.connected = false;
                ReaderStep::Stop
            },
        }
    }

    /// The writer's step: the oldest queued message, if any, to write.
    pub fn next_outbound(&mut self) -> (r: WriterStep)
        ensures
            r@ == old(self)@.write_step(),
            final(self)@ == old(self)@.after_write(),
    {
        if !self.running || !self.connected {
            return WriterStep::Stop;
        }
        match self.outbound.pop_front() {
            Some(m) => WriterStep::Write(m),
            None => WriterStep::Wait,
        }
    }

    /// Messages that `broadcast` dropped.
    pub fn dropped_messages(&self) -> (r: u64)
        ensures
            r == self@.dropped,
    {
        self.dropped
    }

    /// Events that the reader could not queue for the host.
    pub fn lost_events(&self) -> (r: u64)
        ensures
            r == self@.lost,
    {
        self.lost
    }

    pub fn is_running(&self) -> (r: bool)
        ensures
            r == self@.running,
    {
        self.running
    }

    pub fn is_connected(&self) -> (r: bool)
        ensures
            r == self@.connected,
    {
        self.connected
    }
}

proof fn lemma_broadcasts_queue(s: ClientModel, messages: Seq<String>)
    requires
        s.running,
        s.connected,
        s.outbound.len() + messages.len() <= CLIENT_OUTBOUND_CAPACITY,
    ensures
        s.after_broadcasts(messages) == (ClientModel { outbound: s.outbound + messages, ..s }),
    decreases messages.len(),
{
    if messages.len() > 0 {
        lemma_broadcasts_queue(s, messages.drop_last());
        assert((s.outbound + messages.drop_last()).push(messages.last()) =~= s.outbound
            + messages);
    } else {
        assert(s.outbound + messages =~= s.outbound);
    }
}

proof fn lemma_written_queue(t: ClientModel)
    requires
        t.running,
        t.connected,
    ensures
        t.written(t.outbound.len()) == t.outbound.map_values(|m: String| m@),
    decreases t.outbound.len(),
{
    if t.outbound.len() > 0 {
        let u = t.after_write();
        lemma_written_queue(u);
        assert(u.outbound.len() == t.outbound.len() - 1);
        assert(t.outbound.map_values(|m: String| m@) =~= seq![t.outbound[0]@]
            + u.outbound.map_values(|m: String| m@));
    } else {
        assert(t.outbound.map_values(|m: String| m@) =~= Seq::<Seq<char>>::empty());
    }
}

/// Messages broadcast in turn to a live connection whose queue has room for
/// them all are written by the writer in the order of the calls, after the
/// messages queued before them.
pub proof fn lemma_broadcast_order(s: ClientModel, messages: Seq<String>)
    requires
        s.running,
        s.connected,
        s.outbound.len() + messages.len() <= CLIENT_OUTBOUND_CAPACITY,
    ensures
        s.after_broadcasts(messages).outbound == s.outbound + messages,
        s.after_broadcasts(messages).written((s.outbound.len() + messages.len()) as nat) == (
        s.outbound + messages).map_values(|m: String| m@),
{
    lemma_broadcasts_queue(s, messages);
    lemma_written_queue(s.after_broadcasts(messages));
}

/// With no event waiting, a drain returns nothing and changes nothing.
pub proof fn lemma_drain_when_empty(s: ClientModel)
    requires
        s.inbound.len() == 0,
    ensures
        s.drained() is None,
        s.after_drain() == s,
{
}

proof fn lemma_drains_shorten(s: ClientModel, k: nat)
    ensures
        s.after_drains(k).running == s.running,
        k <= s.inbound.len() ==> s.after_drains(k).inbound.len() == s.inbound.len() - k,
        k >= s.inbound.len() ==> s.after_drains(k).inbound.len() == 0,
    decreases k,
{
    if k > 0 {
        lemma_drains_shorten(s.after_drain(), (k - 1) as nat);
    }
}

/// Once the bridge is closed no frame adds an event, so after as many drains
/// as there were waiting events, every further drain returns nothing.
pub proof fn lemma_drains_exhaust_after_close(s: ClientModel, frame: IncomingFrame, extra: nat)
    requires
        !s.running,
    ensures
        s.after_frame(frame) == s,
        s.after_drains(s.inbound.len() + extra).drained() is None,
        s.after_drains(s.inbound.len() + extra).after_frame(frame) == s.after_drains(
            s.inbound.len() + extra,
        ),
{
    lemma_drains_shorten(s, s.inbound.len() + extra);
}

/// After `close`, the reader and the writer stop at their next step without
/// changing anything, and the setup step starts no connection.
pub proof fn lemma_close_stops_tasks(s: ClientModel, frame: IncomingFrame)
    ensures
        s.after_close().frame_step(frame) == ReaderStep::Stop,
        s.after_close().after_frame(frame) == s.after_close(),
        s.after_close().write_step() == WriteAction::Stop,
        s.after_close().after_write() == s.after_close(),
        s.after_close().address_to_take() is None,
{
}

} // verus!
