use std::collections::VecDeque;

use vstd::prelude::*;
use vstd::string::StringExecFns;

use crate::client::{bump, opt_view};
use crate::event::{IncomingFrame, ReaderStep, WebsocketServerEvent, WriteAction, WriterStep};
use crate::handshake::{handshake_frame, handshake_text};

verus! {

/// How many events from one connection may wait for the host.
pub const SERVER_INBOUND_CAPACITY: usize = 100;

/// How many messages may wait for one connection's writer.
pub const SERVER_OUTBOUND_CAPACITY: usize = 10;

/// Where the server is in its listening life cycle. There is no way back to
/// `Idle`: a bridge listens once.
#[derive(Debug, Clone, Copy, PartialEq, Eq, Structural)]
pub enum WsServerState {
    /// No listen request yet.
    Idle,
    /// A listen request waits for the next tick to spawn the accept loop.
    Starting,
    /// The accept loop was spawned; accepted streams become connections.
    Accepting,
}

/// The mathematical state of one registered connection.
pub struct ConnectionModel {
    pub id: u64,
    /// Events from this connection that wait for the host, oldest first.
    pub inbound: Seq<WebsocketServerEvent>,
    /// Messages that wait for this connection's writer, oldest first.
    pub outbound: Seq<String>,
    /// The writer has written the handshake frame.
    pub greeted: bool,
    /// Neither the end of the stream nor an error was read.
    pub live: bool,
}

/// The mathematical state of a server bridge.
pub struct ServerModel {
    pub state: WsServerState,
    /// The address of a listen request that no tick has taken.
    pub address: Option<Seq<char>>,
    /// Cleared by `close`, never set again.
    pub running: bool,
    /// The id that the next accepted connection gets.
    pub next_id: u64,
    /// The connections in the order they were accepted.
    pub conns: Seq<ConnectionModel>,
    /// Where the next drain starts looking.
    pub cursor: usize,
    /// Messages that `broadcast` could not queue, one per connection.
    pub dropped: u64,
    /// Events that a reader could not queue.
    pub lost: u64,
}

pub open spec fn saturating(n: int) -> u64 {
    if n > u64::MAX {
        u64::MAX
    } else {
        n as u64
    }
}

impl ConnectionModel {
    pub open spec fn fresh(id: u64) -> Self {
        ConnectionModel {
            id,
            inbound: seq![WebsocketServerEvent::OnOpen(id)],
            outbound: Seq::empty(),
            greeted: false,
            live: true,
        }
    }

    /// Whether a broadcast finds this connection's queue full.
    pub open spec fn is_full(self) -> bool {
        self.live && self.outbound.len() >= SERVER_OUTBOUND_CAPACITY
    }

    pub open spec fn offer(self, message: String) -> Self {
        if self.live && self.outbound.len() < SERVER_OUTBOUND_CAPACITY {
            ConnectionModel { outbound: self.outbound.push(message), ..self }
        } else {
            self
        }
    }
}

/// How many of the connections a broadcast finds full.
pub open spec fn full_count(conns: Seq<ConnectionModel>) -> nat
    decreases conns.len(),
{
    if conns.len() == 0 {
        0
    } else {
        full_count(conns.drop_last()) + if conns.last().is_full() {
            1nat
        } else {
            0nat
        }
    }
}

/// The index after `i`, going round.
pub open spec fn next_index(i: int, n: int) -> int {
    if i + 1 >= n {
        0
    } else {
        i + 1
    }
}

/// The first connection at or after `i`, going round, that holds an event,
/// looking at `remaining` connections at most.
pub open spec fn seek(conns: Seq<ConnectionModel>, i: int, remaining: nat) -> Option<int>
    decreases remaining,
{
    if remaining == 0 {
        None
    } else if conns[i].inbound.len() > 0 {
        Some(i)
    } else {
        seek(conns, next_index(i, conns.len() as int), (remaining - 1) as nat)
    }
}

/// The first index at or after `i` of a connection with this id.
pub open spec fn find_from(conns: Seq<ConnectionModel>, id: u64, i: int) -> Option<int>
    decreases conns.len() - i,
{
    if i >= conns.len() || i < 0 {
        None
    } else if conns[i].id == id {
        Some(i)
    } else {
        find_from(conns, id, i + 1)
    }
}

pub open spec fn find(conns: Seq<ConnectionModel>, id: u64) -> Option<int> {
    find_from(conns, id, 0)
}

impl ServerModel {
    pub open spec fn initial() -> Self {
        ServerModel {
            state: WsServerState::Idle,
            address: None,
            running: true,
            next_id: 0,
            conns: Seq::empty(),
            cursor: 0,
            dropped: 0,
            lost: 0,
        }
    }

    /// Ids grow with the order of acceptance and stay below the next id.
    pub open spec fn wf(self) -> bool {
        &&& forall|i: int, j: int|
            0 <= i < j < self.conns.len() ==> #[trigger] self.conns[i].id < #[trigger] self.conns[j].id
        &&& forall|i: int| 0 <= i < self.conns.len() ==> #[trigger] self.conns[i].id < self.next_id
    }

    pub open spec fn after_listen(self, address: Seq<char>) -> Self {
        if self.state == WsServerState::Accepting {
            self
        } else {
            ServerModel { state: WsServerState::Starting, address: Some(address), ..self }
        }
    }

    /// The address that a tick binds the accept loop to, if it spawns one.
    pub open spec fn to_spawn(self) -> Option<Seq<char>> {
        if self.running && self.state == WsServerState::Starting {
            self.address
        } else {
            None
        }
    }

    pub open spec fn after_tick(self) -> Self {
        if self.to_spawn() is Some {
            ServerModel { state: WsServerState::Accepting, address: None, ..self }
        } else {
            self
        }
    }

    pub open spec fn can_accept(self) -> bool {
        self.running && self.state == WsServerState::Accepting && self.next_id < u64::MAX
    }

    pub open spec fn after_accept(self) -> Self {
        if self.can_accept() {
            ServerModel {
                next_id: (self.next_id + 1) as u64,
                conns: self.conns.push(ConnectionModel::fresh(self.next_id)),
                ..self
            }
        } else {
            self
        }
    }

    /// The state after `n` accepted streams.
    pub open spec fn after_accepts(self, n: nat) -> Self
        decreases n,
    {
        if n == 0 {
            self
        } else {
            self.after_accepts((n - 1) as nat).after_accept()
        }
    }

    /// The ids that `n` accepted streams get, in the order of acceptance.
    pub open spec fn accepted_ids(self, n: nat) -> Seq<u64>
        decreases n,
    {
        if n == 0 {
            Seq::empty()
        } else {
            let before = self.after_accepts((n - 1) as nat);
            if before.can_accept() {
                self.accepted_ids((n - 1) as nat).push(before.next_id)
            } else {
                self.accepted_ids((n - 1) as nat)
            }
        }
    }

    pub open spec fn after_broadcast(self, message: String) -> Self {
        if self.running {
            ServerModel {
                conns: self.conns.map_values(|c: ConnectionModel| c.offer(message)),
                dropped: saturating(self.dropped + full_count(self.conns)),
                ..self
            }
        } else {
            self
        }
    }

    /// The state after `broadcast` of each message in turn.
    pub open spec fn after_broadcasts(self, messages: Seq<String>) -> Self
        decreases messages.len(),
    {
        if messages.len() == 0 {
            self
        } else {
            self.after_broadcasts(messages.drop_last()).after_broadcast(messages.last())
        }
    }

    /// The connection that the next drain takes an event from.
    pub open spec fn ready(self) -> Option<int> {
        if self.conns.len() == 0 {
            None
        } else {
            seek(self.conns, (self.cursor as int) % (self.conns.len() as int), self.conns.len())
        }
    }

    pub open spec fn drained(self) -> Option<WebsocketServerEvent> {
        match self.ready() {
            Some(i) => Some(self.conns[i].inbound[0]),
            None => None,
        }
    }

    pub open spec fn after_drain(self) -> Self {
        match self.ready() {
            Some(i) => ServerModel {
                conns: self.conns.update(
                    i,
                    ConnectionModel { inbound: self.conns[i].inbound.drop_first(), ..self.conns[i] },
                ),
                cursor: next_index(i, self.conns.len() as int) as usize,
                ..self
            },
            None => self,
        }
    }

    /// The state after `k` drains in a row.
    pub open spec fn after_drains(self, k: nat) -> Self
        decreases k,
    {
        if k == 0 {
            self
        } else {
            self.after_drain().after_drains((k - 1) as nat)
        }
    }

    pub open spec fn after_close(self) -> Self {
        ServerModel {
            running: false,
            conns: self.conns.map_values(
                |c: ConnectionModel| ConnectionModel { outbound: Seq::empty(), ..c },
            ),
            ..self
        }
    }

    /// The connection with this id that a task may still serve.
    pub open spec fn serving(self, id: u64) -> Option<int> {
        match find(self.conns, id) {
            Some(i) => if self.running && self.conns[i].live {
                Some(i)
            } else {
                None
            },
            None => None,
        }
    }

    pub open spec fn deliver(self, i: int, event: WebsocketServerEvent) -> Self {
        if self.conns[i].inbound.len() < SERVER_INBOUND_CAPACITY {
            ServerModel {
                conns: self.conns.update(
                    i,
                    ConnectionModel { inbound: self.conns[i].inbound.push(event), ..self.conns[i] },
                ),
                ..self
            }
        } else {
            ServerModel { lost: bump(self.lost), ..self }
        }
    }

    pub open spec fn frame_step(self, id: u64, frame: IncomingFrame) -> ReaderStep {
        match self.serving(id) {
            Some(_) => match frame {
                IncomingFrame::Text(_) => ReaderStep::Continue,
                IncomingFrame::Other => ReaderStep::Continue,
                _ => ReaderStep::Stop,
            },
            None => ReaderStep::Stop,
        }
    }

    pub open spec fn after_frame(self, id: u64, frame: IncomingFrame) -> Self {
        match self.serving(id) {
            Some(i) => match frame {
                IncomingFrame::Text(t) => self.deliver(i, WebsocketServerEvent::OnMessage(id, t)),
                IncomingFrame::Other => self,
                _ => {
                    let d = self.deliver(i, WebsocketServerEvent::OnClose(id));
                    ServerModel {
                        conns: d.conns.update(i, ConnectionModel { live: false, ..d.conns[i] }),
                        ..d
                    }
                },
            },
            None => self,
        }
    }

    pub open spec fn write_step(self, id: u64) -> WriteAction {
        match self.serving(id) {
            Some(i) => if !self.conns[i].greeted {
                WriteAction::Write(handshake_text(id))
            } else if self.conns[i].outbound.len() == 0 {
                WriteAction::Wait
            } else {
                WriteAction::Write(self.conns[i].outbound[0]@)
            },
            None => WriteAction::Stop,
        }
    }

    pub open spec fn after_write(self, id: u64) -> Self {
        match self.serving(id) {
            Some(i) => if !self.conns[i].greeted {
                ServerModel {
                    conns: self.conns.update(i, ConnectionModel { greeted: true, ..self.conns[i] }),
                    ..self
                }
            } else if self.conns[i].outbound.len() == 0 {
                self
            } else {
                ServerModel {
                    conns: self.conns.update(
                        i,
                        ConnectionModel {
                            outbound: self.conns[i].outbound.drop_first(),
                            ..self.conns[i]
                        },
                    ),
                    ..self
                }
            },
            None => self,
        }
    }

    /// The texts that `k` writer steps in a row for one connection write, up
    /// to the first step that writes nothing.
    pub open spec fn written(self, id: u64, k: nat) -> Seq<Seq<char>>
        decreases k,
    {
        if k == 0 {
            Seq::empty()
        } else {
            match self.write_step(id) {
                WriteAction::Write(w) => seq![w] + self.after_write(id).written(id, (k - 1) as nat),
                _ => Seq::empty(),
            }
        }
    }
}

pub proof fn lemma_seek_ready(conns: Seq<ConnectionModel>, i: int, remaining: nat)
    requires
        0 <= i < conns.len(),
    ensures
        seek(conns, i, remaining) matches Some(j) ==> 0 <= j < conns.len() && conns[j].inbound.len()
            > 0,
    decreases remaining,
{
    if remaining > 0 && conns[i].inbound.len() == 0 {
        lemma_seek_ready(conns, next_index(i, conns.len() as int), (remaining - 1) as nat);
    }
}

pub proof fn lemma_find_in_range(conns: Seq<ConnectionModel>, id: u64, i: int)
    ensures
        find_from(conns, id, i) matches Some(j) ==> 0 <= j < conns.len() && conns[j].id == id
            && i <= j,
    decreases conns.len() - i,
{
    if 0 <= i < conns.len() && conns[i].id != id {
        lemma_find_in_range(conns, id, i + 1);
    }
}

struct Connection {
    id: u64,
    inbound: VecDeque<WebsocketServerEvent>,
    outbound: VecDeque<String>,
    greeted: bool,
    live: bool,
}

impl View for Connection {
    type V = ConnectionModel;

    closed spec fn view(&self) -> ConnectionModel {
        ConnectionModel {
            id: self.id,
            inbound: self.inbound@,
            outbound: self.outbound@,
            greeted: self.greeted,
            live: self.live,
        }
    }
}

impl Connection {
    fn offer(&mut self, message: &String) -> (full: bool)
        ensures
            final(self)@ == old(self)@.offer(*message),
            full == old(self)@.is_full(),
    {
        if self.live {
            if self.outbound.len() < SERVER_OUTBOUND_CAPACITY {
                self.outbound.push_back(message.clone());
                false
            } else {
                true
            }
        } else {
            false
        }
    }

    fn push_inbound(&mut self, event: WebsocketServerEvent)
        ensures
            final(self)@ == (ConnectionModel { inbound: old(self)@.inbound.push(event), ..old(self)@ }),
    {
        self.inbound.push_back(event);
    }

    fn pop_inbound(&mut self) -> (r: Option<WebsocketServerEvent>)
        ensures
            old(self)@.inbound.len() > 0 ==> r == Some(old(self)@.inbound[0]) && final(self)@
                == (ConnectionModel { inbound: old(self)@.inbound.drop_first(), ..old(self)@ }),
    {
        self.inbound.pop_front()
    }

    fn end(&mut self)
        ensures
            final(self)@ == (ConnectionModel { live: false, ..old(self)@ }),
    {
        self.live = false;
    }

    fn greet(&mut self)
        ensures
            final(self)@ == (ConnectionModel { greeted: true, ..old(self)@ }),
    {
        self.greeted = true;
    }

    fn pop_outbound(&mut self) -> (r: Option<String>)
        ensures
            old(self)@.outbound.len() == 0 ==> r is None && final(self)@ == old(self)@,
            old(self)@.outbound.len() > 0 ==> r == Some(old(self)@.outbound[0]) && final(self)@
                == (ConnectionModel { outbound: old(self)@.outbound.drop_first(), ..old(self)@ }),
    {
        self.outbound.pop_front()
    }

    fn clear_outbound(&mut self)
        ensures
            final(self)@ == (ConnectionModel { outbound: Seq::empty(), ..old(self)@ }),
    {
        self.outbound = VecDeque::new();
    }
}

/// The server side of the bridge: the host's handle on every accepted
/// connection.
pub struct WebsocketServerResource {
    state: WsServerState,
    listen_address: Option<String>,
    running: bool,
    next_client_id: u64,
    connections: Vec<Connection>,
    cursor: usize,
    dropped: u64,
    lost: u64,
}

impl View for WebsocketServerResource {
    type V = ServerModel;

    closed spec fn view(&self) -> ServerModel {
        ServerModel {
            state: self.state,
            address: opt_view(self.listen_address),
            running: self.running,
            next_id: self.next_client_id,
            conns: self.connections@.map_values(|c: Connection| c@),
            cursor: self.cursor,
            dropped: self.dropped,
            lost: self.lost,
        }
    }
}

impl Default for WebsocketServerResource {
    fn default() -> (r: Self)
        ensures
            r@ == ServerModel::initial(),
    {
        Self::new()
    }
}

impl WebsocketServerResource {
    /// A bridge that does not listen yet.
    pub fn new() -> (r: Self)
        ensures
            r@ == ServerModel::initial(),
    {
        let r = WebsocketServerResource {
            state: WsServerState::Idle,
            listen_address: None,
            running: true,
            next_client_id: 0,
            connections: Vec::new(),
            cursor: 0,
            dropped: 0,
            lost: 0,
        };
        assert(r@.conns =~= Seq::<ConnectionModel>::empty());
        r
    }

    /// Hands out the next connection id: each id once, in increasing order.
    pub fn generate_next_client_id(&mut self) -> (r: u64)
        requires
            old(self)@.next_id < u64::MAX,
        ensures
            r == old(self)@.next_id,
            final(self)@ == (ServerModel { next_id: (r + 1) as u64, ..old(self)@ }),
    {
        let id = self.next_client_id;
        self.next_client_id = self.next_client_id + 1;
        id
    }

    /// Asks to listen on `address` (host:port); the next tick spawns the
    /// accept loop. Once that loop is spawned, further requests are ignored.
    pub fn listen(&mut self, address: &str)
        ensures
            final(self)@ == old(self)@.after_listen(address@),
    {
        if self.state != WsServerState::Accepting {
            self.listen_address = Some(String::from_str(address));
            self.state = WsServerState::Starting;
        }
    }

    /// The host's progress step for the listener: where a listen request
    /// waits, it returns the address to bind the accept loop to, and the
    /// server counts as accepting from then on.
    pub fn tick(&mut self) -> (r: Option<String>)
        ensures
            opt_view(r) == old(self)@.to_spawn(),
            final(self)@ == old(self)@.after_tick(),
    {
        if self.running && self.state == WsServerState::Starting {
            match self.listen_address.take() {
                Some(a) => {
                    self.state = WsServerState::Accepting;
                    Some(a)
                },
                None => None,
            }
        } else {
            None
        }
    }

    /// Registers an accepted stream under the next id, with the opening
    /// event queued for the host; `None` where the server is closed, not
    /// accepting, or out of ids, and then the stream is to be dropped.
    pub fn accept_connection(&mut self) -> (r: Option<u64>)
        ensures
            old(self)@.can_accept() ==> r == Some(old(self)@.next_id),
            !old(self)@.can_accept() ==> r is None,
            final(self)@ == old(self)@.after_accept(),
    {
        if !(self.running && self.state == WsServerState::Accepting
            && self.next_client_id < u64::MAX) {
            return None;
        }
        let id = self.generate_next_client_id();
        let mut inbound = VecDeque::new();
        inbound.push_back(WebsocketServerEvent::OnOpen(id));
        let c = Connection { id, inbound, outbound: VecDeque::new(), greeted: false, live: true };
        proof {
            assert(c@ == ConnectionModel::fresh(id));
        }
        let ghost before = self.connections@;
        self.connections.push(c);
        proof {
            assert(self.connections@.map_values(|c: Connection| c@) =~= before.map_values(
                |c: Connection| c@,
            ).push(ConnectionModel::fresh(id)));
        }
        Some(id)
    }

    /// Queues a copy of the message for every live connection. A full queue
    /// drops the copy and counts it; the other connections still get theirs,
    /// and the host never waits here. After `close` nothing is queued.
    pub fn broadcast(&mut self, message: String)
        ensures
            final(self)@ == old(self)@.after_broadcast(message),
    {
        if !self.running {
            return;
        }
        let ghost old_conns = self@.conns;
        let n = self.connections.len();
        let mut i: usize = 0;
        while i < n
            invariant
                n == self.connections@.len(),
                old_conns.len() == n,
                old_conns == old(self)@.conns,
                0 <= i <= n,
                self.state == old(self).state,
                self.listen_address == old(self).listen_address,
                self.running == old(self).running,
                self.next_client_id == old(self).next_client_id,
                self.cursor == old(self).cursor,
                self.lost == old(self).lost,
                forall|j: int| 0 <= j < i ==> #[trigger] self@.conns[j] == old_conns[j].offer(message),
                forall|j: int| i <= j < n ==> #[trigger] self@.conns[j] == old_conns[j],
                self.dropped == saturating(old(self).dropped + full_count(old_conns.take(i as int))),
            decreases n - i,
        {
            let ghost before = self.connections@;
            assert(old_conns.take(i + 1).drop_last() =~= old_conns.take(i as int));
            assert(self@.conns[i as int] == old_conns[i as int]);
            let full = self.connections[i].offer(&message);
            if full {
                self.dropped = self.dropped.saturating_add(1);
            }
            proof {
                assert(self.connections@ == before.update(i as int, self.connections@[i as int]));
                assert(self.connections@[i as int]@ == old_conns[i as int].offer(message));
                assert(self@.conns =~= before.map_values(|c: Connection| c@).update(
                    i as int,
                    old_conns[i as int].offer(message),
                ));
            }
            i = i + 1;
        }
        proof {
            assert(old_conns.take(n as int) =~= old_conns);
            assert(self@.conns =~= old_conns.map_values(|c: ConnectionModel| c.offer(message)));
        }
    }

    fn ready_index(&self) -> (r: Option<usize>)
        ensures
            match r {
                Some(i) => self@.ready() == Some(i as int),
                None => self@.ready() is None,
            },
    {
        let n = self.connections.len();
        if n == 0 {
            return None;
        }
        let mut idx: usize = self.cursor % n;
        let mut remaining: usize = n;
        while remaining > 0
            invariant
                n == self@.conns.len(),
                n > 0,
                0 <= idx < n,
                remaining <= n,
                self@.ready() == seek(self@.conns, idx as int, remaining as nat),
            decreases remaining,
        {
            if self.connections[idx].inbound.len() > 0 {
                return Some(idx);
            }
            idx = if idx + 1 >= n {
                0
            } else {
                idx + 1
            };
            remaining = remaining - 1;
        }
        None
    }

    /// Hands the host the oldest event of the first connection, going round
    /// from where the last drain stopped, that holds one; `None` when no
    /// connection holds an event, and then nothing changes.
    pub fn drain_event(&mut self) -> (r: Option<WebsocketServerEvent>)
        ensures
            r == old(self)@.drained(),
            final(self)@ == old(self)@.after_drain(),
    {
        let n = self.connections.len();
        match self.ready_index() {
            None => None,
            Some(i) => {
                proof {
                    lemma_seek_ready(self@.conns, (self.cursor as int) % (n as int), n as nat);
                }
                let ghost before = self.connections@;
                let e = self.connections[i].pop_inbound();
                assert(self.connections@ == before.update(i as int, self.connections@[i as int]));
                self.cursor = if i + 1 >= n {
                    0
                } else {
                    i + 1
                };
                proof {
                    assert(self@.conns =~= before.map_values(|c: Connection| c@).update(
                        i as int,
                        ConnectionModel {
                            inbound: before[i as int]@.inbound.drop_first(),
                            ..before[i as int]@
                        },
                    ));
                }
                e
            },
        }
    }

    /// Stops the server for good: every task stops at its next step, queued
    /// messages are discarded, no stream is accepted any more, and events
    /// already queued can still be drained.
    pub fn close(&mut self)
        ensures
            final(self)@ == old(self)@.after_close(),
    {
        self.running = false;
        let ghost old_conns = self@.conns;
        let n = self.connections.len();
        let mut i: usize = 0;
        while i < n
            invariant
                n == self.connections@.len(),
                old_conns.len() == n,
                old_conns == old(self)@.conns,
                0 <= i <= n,
                self.state == old(self).state,
                self.listen_address == old(self).listen_address,
                !self.running,
                self.next_client_id == old(self).next_client_id,
                self.cursor == old(self).cursor,
                self.lost == old(self).lost,
                self.dropped == old(self).dropped,
                forall|j: int|
                    0 <= j < i ==> #[trigger] self@.conns[j] == (ConnectionModel {
                        outbound: Seq::empty(),
                        ..old_conns[j]
                    }),
                forall|j: int| i <= j < n ==> #[trigger] self@.conns[j] == old_conns[j],
            decreases n - i,
        {
            let ghost before = self.connections@;
            assert(self@.conns[i as int] == old_conns[i as int]);
            self.connections[i].clear_outbound();
            proof {
                assert(self.connections@ == before.update(i as int, self.connections@[i as int]));
                assert(self@.conns =~= before.map_values(|c: Connection| c@).update(
                    i as int,
                    ConnectionModel { outbound: Seq::empty(), ..old_conns[i as int] },
                ));
            }
            i = i + 1;
        }
        proof {
            assert(self@.conns =~= old_conns.map_values(
                |c: ConnectionModel| ConnectionModel { outbound: Seq::empty(), ..c },
            ));
        }
    }

    fn find_index(&self, id: u64) -> (r: Option<usize>)
        ensures
            match r {
                Some(i) => find(self@.conns, id) == Some(i as int),
                None => find(self@.conns, id) is None,
            },
    {
        let n = self.connections.len();
        let mut i: usize = 0;
        while i < n
            invariant
                n == self@.conns.len(),
                0 <= i <= n,
                find(self@.conns, id) == find_from(self@.conns, id, i as int),
            decreases n - i,
        {
            if self.connections[i].id == id {
                return Some(i);
            }
            i = i + 1;
        }
        None
    }

    fn serving_index(&self, id: u64) -> (r: Option<usize>)
        ensures
            match r {
                Some(i) => self@.serving(id) == Some(i as int) && i < self@.conns.len(),
                None => self@.serving(id) is None,
            },
    {
        match self.find_index(id) {
            Some(i) => {
                proof {
                    lemma_find_in_range(self@.conns, id, 0);
                }
                if self.running && self.connections[i].live {
                    Some(i)
                } else {
                    None
                }
            },
            None => None,
        }
    }

    fn deliver(&mut self, i: usize, event: WebsocketServerEvent)
        requires
            i < old(self)@.conns.len(),
        ensures
            final(self)@ == old(self)@.deliver(i as int, event),
    {
        let ghost before = self.connections@;
        if self.connections[i].inbound.len() < SERVER_INBOUND_CAPACITY {
            self.connections[i].push_inbound(event);
            proof {
                assert(self.connections@ == before.update(i as int, self.connections@[i as int]));
                assert(self@.conns =~= before.map_values(|c: Connection| c@).update(
                    i as int,
                    ConnectionModel {
                        inbound: before[i as int]@.inbound.push(event),
                        ..before[i as int]@
                    },
                ));
            }
        } else {
            self.lost = self.lost.saturating_add(1);
        }
    }

    /// The reader's step for connection `id` on one frame: a text frame
    /// becomes a message event, other frames are skipped, and the end of the
    /// stream or an error queues the closing event and ends the connection.
    /// After `close`, or for an id that is not served, the reader stops.
    pub fn on_frame(&mut self, id: u64, frame: IncomingFrame) -> (r: ReaderStep)
        ensures
            r == old(self)@.frame_step(id, frame),
            final(self)@ == old(self)@.after_frame(id, frame),
    {
        match self.serving_index(id) {
            None => ReaderStep::Stop,
            Some(i) => match frame {
                IncomingFrame::Text(t) => {
                    self.deliver(i, WebsocketServerEvent::OnMessage(id, t));
                    ReaderStep::Continue
                },
                IncomingFrame::Other => ReaderStep::Continue,
                _ => {
                    self.deliver(i, WebsocketServerEvent::OnClose(id));
                    let ghost before = self.connections@;
                    assert(self.connections@.len() == self@.conns.len());
                    self.connections[i].end();
                    proof {
                        assert(self.connections@ == before.update(i as int, self.connections@[i as int]));
                        assert(self@.conns =~= before.map_values(|c: Connection| c@).update(
                            i as int,
                            ConnectionModel { live: false, ..before[i as int]@ },
                        ));
                    }
                    ReaderStep::Stop
                },
            },
        }
    }

    /// The writer's step for connection `id`: first the handshake frame that
    /// tells the peer its id, then the queued messages, oldest first. After
    /// `close`, once the connection ended, or for an id that is not served,
    /// the writer stops.
    pub fn next_outbound(&mut self, id: u64) -> (r: WriterStep)
        ensures
            r@ == old(self)@.write_step(id),
            final(self)@ == old(self)@.after_write(id),
    {
        match self.serving_index(id) {
            None => WriterStep::Stop,
            Some(i) => {
                let ghost before = self.connections@;
                if !self.connections[i].greeted {
                    self.connections[i].greet();
                    proof {
                        assert(self.connections@ == before.update(i as int, self.connections@[i as int]));
                        assert(self@.conns =~= before.map_values(|c: Connection| c@).update(
                            i as int,
                            ConnectionModel { greeted: true, ..before[i as int]@ },
                        ));
                    }
                    WriterStep::Write(handshake_frame(id))
                } else {
                    let popped = self.connections[i].pop_outbound();
                    proof {
                        assert(self.connections@ == before.update(i as int, self.connections@[i as int]));
                    }
                    match popped {
                        Some(m) => {
                            proof {
                                assert(self@.conns =~= before.map_values(|c: Connection| c@).update(
                                    i as int,
                                    ConnectionModel {
                                        outbound: before[i as int]@.outbound.drop_first(),
                                        ..before[i as int]@
                                    },
                                ));
                            }
                            WriterStep::Write(m)
                        },
                        None => {
                            proof {
                                assert(self@.conns =~= before.map_values(|c: Connection| c@));
                            }
                            WriterStep::Wait
                        },
                    }
                }
            },
        }
    }

    /// Copies of broadcast messages that found a full queue.
    pub fn dropped_messages(&self) -> (r: u64)
        ensures
            r == self@.dropped,
    {
        self.dropped
    }

    /// Events that a reader could not queue for the host.
    pub fn lost_events(&self) -> (r: u64)
        ensures
            r == self@.lost,
    {
        self.lost
    }

    pub fn state(&self) -> (r: WsServerState)
        ensures
            r == self@.state,
    {
        self.state
    }

    pub fn is_running(&self) -> (r: bool)
        ensures
            r == self@.running,
    {
        self.running
    }

    /// How many connections were registered.
    pub fn connection_count(&self) -> (r: usize)
        ensures
            r == self@.conns.len(),
    {
        self.connections.len()
    }
}

} // verus!
