//! What holds of every run of the server bridge: ids, the handshake, the
//! order of messages, draining, and shutdown.

use vstd::prelude::*;

use crate::client::{ClientModel, CLIENT_INBOUND_CAPACITY};
use crate::event::{IncomingFrame, ReaderStep, WebsocketClientEvent, WriteAction};
use crate::handshake::{client_event_of, handshake_text, lemma_handshake_round_trip};
use crate::server::{
    find, find_from, lemma_find_in_range, lemma_seek_ready, next_index, seek, ConnectionModel,
    ServerModel, WsServerState, SERVER_OUTBOUND_CAPACITY,
};

verus! {

proof fn lemma_accepts_shape(s: ServerModel, n: nat)
    requires
        s.running,
        s.state == WsServerState::Accepting,
        s.next_id + n <= u64::MAX,
    ensures
        s.after_accepts(n) == (ServerModel {
            next_id: (s.next_id + n) as u64,
            conns: s.conns + Seq::new(n, |k: int| ConnectionModel::fresh((s.next_id + k) as u64)),
            ..s
        }),
        s.accepted_ids(n) == Seq::new(n, |k: int| (s.next_id + k) as u64),
    decreases n,
{
    if n == 0 {
        assert(s.conns + Seq::new(0, |k: int| ConnectionModel::fresh((s.next_id + k) as u64))
            =~= s.conns);
        assert(s.accepted_ids(0) =~= Seq::new(0, |k: int| (s.next_id + k) as u64));
    } else {
        lemma_accepts_shape(s, (n - 1) as nat);
        let fresh = |k: int| ConnectionModel::fresh((s.next_id + k) as u64);
        assert((s.conns + Seq::new((n - 1) as nat, fresh)).push(fresh((n - 1) as int)) =~= s.conns
            + Seq::new(n, fresh));
        assert(Seq::new((n - 1) as nat, |k: int| (s.next_id + k) as u64).push(
            (s.next_id + n - 1) as u64,
        ) =~= Seq::new(n, |k: int| (s.next_id + k) as u64));
    }
}

/// Streams accepted one after another get ids that are pairwise distinct and
/// strictly increasing in the order of acceptance, differ from every id
/// handed out before, and leave the registry well formed.
pub proof fn lemma_ids_increase(s: ServerModel, n: nat)
    requires
        s.wf(),
        s.running,
        s.state == WsServerState::Accepting,
        s.next_id + n <= u64::MAX,
    ensures
        s.accepted_ids(n).len() == n,
        forall|i: int, j: int|
            0 <= i < j < n ==> #[trigger] s.accepted_ids(n)[i] < #[trigger] s.accepted_ids(n)[j],
        forall|i: int, k: int|
            0 <= i < n && 0 <= k < s.conns.len() ==> #[trigger] s.accepted_ids(n)[i]
                != #[trigger] s.conns[k].id,
        s.after_accepts(n).wf(),
{
    lemma_accepts_shape(s, n);
    let t = s.after_accepts(n);
    assert forall|i: int, j: int| 0 <= i < j < t.conns.len() implies #[trigger] t.conns[i].id
        < #[trigger] t.conns[j].id by {
        if j >= s.conns.len() && i < s.conns.len() {
            assert(s.conns[i].id < s.next_id);
        }
    }
    assert forall|i: int| 0 <= i < t.conns.len() implies #[trigger] t.conns[i].id < t.next_id by {
        if i < s.conns.len() {
            assert(s.conns[i].id < s.next_id);
        }
    }
}

/// Every step of the bridge keeps the registry well formed: an id, once
/// handed out, belongs to one connection only, and ids keep the order of
/// acceptance.
pub proof fn lemma_steps_keep_registry(
    s: ServerModel,
    address: Seq<char>,
    message: String,
    id: u64,
    frame: IncomingFrame,
)
    requires
        s.wf(),
    ensures
        s.after_listen(address).wf(),
        s.after_tick().wf(),
        s.after_accept().wf(),
        s.next_id < u64::MAX ==> (ServerModel { next_id: (s.next_id + 1) as u64, ..s }).wf(),
        s.after_broadcast(message).wf(),
        s.after_drain().wf(),
        s.after_close().wf(),
        s.after_frame(id, frame).wf(),
        s.after_write(id).wf(),
{
    if s.can_accept() {
        lemma_accepts_shape(s, 1);
        lemma_ids_increase(s, 1);
    }
    lemma_seek_ready_model(s);
    match find(s.conns, id) {
        Some(i) => {
            lemma_find_in_range(s.conns, id, 0);
        },
        None => {},
    }
    let b = s.after_broadcast(message);
    assert forall|i: int| 0 <= i < b.conns.len() implies #[trigger] b.conns[i].id == s.conns[i].id by {}
    let c = s.after_close();
    assert forall|i: int| 0 <= i < c.conns.len() implies #[trigger] c.conns[i].id == s.conns[i].id by {}
}

proof fn lemma_seek_ready_model(s: ServerModel)
    ensures
        s.ready() matches Some(i) ==> 0 <= i < s.conns.len() && s.conns[i].inbound.len() > 0,
{
    if s.conns.len() > 0 {
        lemma_seek_ready(s.conns, (s.cursor as int) % (s.conns.len() as int), s.conns.len());
    }
}

proof fn lemma_find_unique(conns: Seq<ConnectionModel>, i: int, k: int)
    requires
        forall|a: int, b: int| 0 <= a < b < conns.len() ==> #[trigger] conns[a].id < #[trigger] conns[b].id,
        0 <= k <= i < conns.len(),
    ensures
        find_from(conns, conns[i].id, k) == Some(i),
    decreases i - k,
{
    if k < i {
        assert(conns[k].id < conns[i].id);
        lemma_find_unique(conns, i, k + 1);
    }
}

/// The first frame that the writer of a newly accepted connection writes is
/// the handshake frame for the connection's id, and a client's reader turns
/// that frame into exactly one event: the opening of a connection with that
/// same id.
pub proof fn lemma_first_frame_is_handshake(s: ServerModel, text: String, c: ClientModel)
    requires
        s.wf(),
        s.can_accept(),
        text@ == handshake_text(s.next_id),
        c.running,
        c.connected,
        c.inbound.len() < CLIENT_INBOUND_CAPACITY,
    ensures
        s.after_accept().write_step(s.next_id) == WriteAction::Write(handshake_text(s.next_id)),
        client_event_of(text) == WebsocketClientEvent::OnOpen(s.next_id),
        c.after_frame(IncomingFrame::Text(text)).inbound == c.inbound.push(
            WebsocketClientEvent::OnOpen(s.next_id),
        ),
        c.frame_step(IncomingFrame::Text(text)) == ReaderStep::Continue,
{
    lemma_ids_increase(s, 1);
    lemma_accepts_shape(s, 1);
    let t = s.after_accept();
    assert(t.conns.last().id == s.next_id);
    lemma_find_unique(t.conns, t.conns.len() - 1, 0);
    lemma_handshake_round_trip(s.next_id);
}

proof fn lemma_server_broadcasts_queue(s: ServerModel, messages: Seq<String>, i: int)
    requires
        s.running,
        0 <= i < s.conns.len(),
        s.conns[i].live,
        s.conns[i].outbound.len() + messages.len() <= SERVER_OUTBOUND_CAPACITY,
    ensures
        s.after_broadcasts(messages).conns[i] == (ConnectionModel {
            outbound: s.conns[i].outbound + messages,
            ..s.conns[i]
        }),
        s.after_broadcasts(messages).running,
        s.after_broadcasts(messages).conns.len() == s.conns.len(),
        forall|k: int|
            0 <= k < s.conns.len() ==> #[trigger] s.after_broadcasts(messages).conns[k].id
                == s.conns[k].id,
    decreases messages.len(),
{
    if messages.len() > 0 {
        lemma_server_broadcasts_queue(s, messages.drop_last(), i);
        assert((s.conns[i].outbound + messages.drop_last()).push(messages.last()) =~= s.conns[i].outbound
            + messages);
    } else {
        assert(s.conns[i].outbound + messages =~= s.conns[i].outbound);
    }
}

proof fn lemma_server_written_queue(t: ServerModel, i: int)
    requires
        t.running,
        0 <= i < t.conns.len(),
        t.conns[i].live,
        t.conns[i].greeted,
        find(t.conns, t.conns[i].id) == Some(i),
    ensures
        t.written(t.conns[i].id, t.conns[i].outbound.len()) == t.conns[i].outbound.map_values(
            |m: String| m@,
        ),
    decreases t.conns[i].outbound.len(),
{
    let id = t.conns[i].id;
    if t.conns[i].outbound.len() > 0 {
        let u = t.after_write(id);
        assert(u.conns[i].id == id);
        assert forall|k: int| 0 <= k < u.conns.len() implies #[trigger] u.conns[k].id
            == t.conns[k].id by {}
        assert(u.conns =~= t.conns.update(
            i,
            ConnectionModel { outbound: t.conns[i].outbound.drop_first(), ..t.conns[i] },
        ));
        lemma_find_same_ids(t.conns, u.conns, id, 0);
        lemma_server_written_queue(u, i);
        assert(t.conns[i].outbound.map_values(|m: String| m@) =~= seq![t.conns[i].outbound[0]@]
            + u.conns[i].outbound.map_values(|m: String| m@));
    } else {
        assert(t.conns[i].outbound.map_values(|m: String| m@) =~= Seq::<Seq<char>>::empty());
    }
}

proof fn lemma_find_same_ids(a: Seq<ConnectionModel>, b: Seq<ConnectionModel>, id: u64, k: int)
    requires
        a.len() == b.len(),
        forall|j: int| 0 <= j < a.len() ==> #[trigger] a[j].id == b[j].id,
    ensures
        find_from(a, id, k) == find_from(b, id, k),
    decreases a.len() - k,
{
    if 0 <= k < a.len() {
        lemma_find_same_ids(a, b, id, k + 1);
    }
}

/// Messages broadcast in turn while a live connection's queue has room for
/// them all are written by that connection's writer, once it has sent the
/// handshake frame, in the order of the calls, after the messages queued
/// before them.
pub proof fn lemma_server_broadcast_order(s: ServerModel, messages: Seq<String>, i: int)
    requires
        s.wf(),
        s.running,
        0 <= i < s.conns.len(),
        s.conns[i].live,
        s.conns[i].greeted,
        s.conns[i].outbound.len() + messages.len() <= SERVER_OUTBOUND_CAPACITY,
    ensures
        s.after_broadcasts(messages).conns[i].outbound == s.conns[i].outbound + messages,
        s.after_broadcasts(messages).written(
            s.conns[i].id,
            (s.conns[i].outbound.len() + messages.len()) as nat,
        ) == (s.conns[i].outbound + messages).map_values(|m: String| m@),
{
    lemma_server_broadcasts_queue(s, messages, i);
    let t = s.after_broadcasts(messages);
    lemma_find_unique(s.conns, i, 0);
    lemma_find_same_ids(s.conns, t.conns, s.conns[i].id, 0);
    lemma_server_written_queue(t, i);
}

proof fn lemma_seek_none(conns: Seq<ConnectionModel>, i: int, r: nat)
    requires
        0 <= i < conns.len(),
        r <= conns.len(),
        seek(conns, i, r) is None,
    ensures
        forall|k: int|
            ((i <= k < conns.len() && k - i < r) || (0 <= k < i && k + conns.len() - i < r))
                ==> (#[trigger] conns[k]).inbound.len() == 0,
    decreases r,
{
    if r > 0 {
        lemma_seek_none(conns, next_index(i, conns.len() as int), (r - 1) as nat);
    }
}

/// With no event waiting on any connection, a drain returns nothing and
/// changes nothing.
pub proof fn lemma_server_drain_when_empty(s: ServerModel)
    requires
        forall|k: int| 0 <= k < s.conns.len() ==> (#[trigger] s.conns[k]).inbound.len() == 0,
    ensures
        s.drained() is None,
        s.after_drain() == s,
{
    lemma_seek_ready_model(s);
}

/// How many events wait on all connections together.
pub open spec fn pending(conns: Seq<ConnectionModel>) -> nat
    decreases conns.len(),
{
    if conns.len() == 0 {
        0
    } else {
        pending(conns.drop_last()) + conns.last().inbound.len()
    }
}

proof fn lemma_pending_zero(conns: Seq<ConnectionModel>)
    requires
        pending(conns) == 0,
    ensures
        forall|k: int| 0 <= k < conns.len() ==> (#[trigger] conns[k]).inbound.len() == 0,
    decreases conns.len(),
{
    if conns.len() > 0 {
        lemma_pending_zero(conns.drop_last());
        assert forall|k: int| 0 <= k < conns.len() implies (#[trigger] conns[k]).inbound.len()
            == 0 by {
            if k < conns.len() - 1 {
                assert(conns[k] == conns.drop_last()[k]);
            }
        }
    }
}

proof fn lemma_pending_take(conns: Seq<ConnectionModel>, i: int)
    requires
        0 <= i < conns.len(),
        conns[i].inbound.len() > 0,
    ensures
        pending(
            conns.update(i, ConnectionModel { inbound: conns[i].inbound.drop_first(), ..conns[i] }),
        ) + 1 == pending(conns),
    decreases conns.len(),
{
    let u = conns.update(i, ConnectionModel { inbound: conns[i].inbound.drop_first(), ..conns[i] });
    if i < conns.len() - 1 {
        lemma_pending_take(conns.drop_last(), i);
        assert(u.drop_last() =~= conns.drop_last().update(
            i,
            ConnectionModel { inbound: conns[i].inbound.drop_first(), ..conns[i] },
        ));
    } else {
        assert(u.drop_last() =~= conns.drop_last());
    }
}

proof fn lemma_drain_takes_one(s: ServerModel)
    requires
        pending(s.conns) > 0,
    ensures
        pending(s.after_drain().conns) + 1 == pending(s.conns),
        s.after_drain().running == s.running,
{
    lemma_seek_ready_model(s);
    if s.ready() is None {
        let n = s.conns.len();
        if n == 0 {
        } else {
            let start = (s.cursor as int) % (n as int);
            lemma_seek_none(s.conns, start, n);
            assert forall|k: int| 0 <= k < n implies (#[trigger] s.conns[k]).inbound.len() == 0 by {}
            lemma_pending_all_empty(s.conns);
        }
    } else {
        let i = s.ready()->Some_0;
        lemma_pending_take(s.conns, i);
    }
}

proof fn lemma_pending_all_empty(conns: Seq<ConnectionModel>)
    requires
        forall|k: int| 0 <= k < conns.len() ==> (#[trigger] conns[k]).inbound.len() == 0,
    ensures
        pending(conns) == 0,
    decreases conns.len(),
{
    if conns.len() > 0 {
        assert forall|k: int| 0 <= k < conns.drop_last().len() implies (
        #[trigger] conns.drop_last()[k]).inbound.len() == 0 by {
            assert(conns.drop_last()[k] == conns[k]);
        }
        lemma_pending_all_empty(conns.drop_last());
    }
}

proof fn lemma_drains_exhaust(s: ServerModel, k: nat)
    requires
        k >= pending(s.conns),
    ensures
        pending(s.after_drains(k).conns) == 0,
        s.after_drains(k).running == s.running,
    decreases k,
{
    if k > 0 {
        if pending(s.conns) > 0 {
            lemma_drain_takes_one(s);
            lemma_drains_exhaust(s.after_drain(), (k - 1) as nat);
        } else {
            lemma_pending_zero(s.conns);
            lemma_server_drain_when_empty(s);
            lemma_drains_exhaust(s.after_drain(), (k - 1) as nat);
        }
    }
}

/// Once the server is closed no frame adds an event, so after as many drains
/// as there were waiting events, every further drain returns nothing.
pub proof fn lemma_server_drains_exhaust_after_close(
    s: ServerModel,
    id: u64,
    frame: IncomingFrame,
    extra: nat,
)
    requires
        !s.running,
    ensures
        s.after_frame(id, frame) == s,
        s.after_drains(pending(s.conns) + extra).drained() is None,
        s.after_drains(pending(s.conns) + extra).after_frame(id, frame) == s.after_drains(
            pending(s.conns) + extra,
        ),
{
    let t = s.after_drains(pending(s.conns) + extra);
    lemma_drains_exhaust(s, pending(s.conns) + extra);
    lemma_pending_zero(t.conns);
    lemma_server_drain_when_empty(t);
}

/// After `close`, every reader and writer stops at its next step without
/// changing anything, no stream is accepted, and no accept loop is spawned.
pub proof fn lemma_server_close_stops_tasks(s: ServerModel, id: u64, frame: IncomingFrame)
    ensures
        s.after_close().frame_step(id, frame) == ReaderStep::Stop,
        s.after_close().after_frame(id, frame) == s.after_close(),
        s.after_close().write_step(id) == WriteAction::Stop,
        s.after_close().after_write(id) == s.after_close(),
        !s.after_close().can_accept(),
        s.after_close().to_spawn() is None,
{
}

} // verus!
