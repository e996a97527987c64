use bevy_ws::{
    ClientSetup, IncomingFrame, ReaderStep, WebsocketClientEvent, WebsocketResource,
    WebsocketServerEvent, WebsocketServerResource, WriterStep,
};

/// Runs the server's writer for `id` once and hands the frame to `client`.
fn relay_to_client(server: &mut WebsocketServerResource, id: u64, client: &mut WebsocketResource) {
    match server.next_outbound(id) {
        WriterStep::Write(text) => {
            assert_eq!(client.on_frame(IncomingFrame::Text(text)), ReaderStep::Continue);
        }
        other => panic!("writer had nothing to write: {:?}", other),
    }
}

/// Runs the client's writer once and hands the frame to the server's reader for `id`.
fn relay_to_server(client: &mut WebsocketResource, server: &mut WebsocketServerResource, id: u64) {
    match client.next_outbound() {
        WriterStep::Write(text) => {
            assert_eq!(server.on_frame(id, IncomingFrame::Text(text)), ReaderStep::Continue);
        }
        other => panic!("writer had nothing to write: {:?}", other),
    }
}

fn connected_client(address: &str) -> WebsocketResource {
    let mut client = WebsocketResource::new();
    client.open(address);
    match client.setup() {
        ClientSetup::Connect(url) => assert_eq!(url.as_str(), format!("{}/", address)),
        other => panic!("expected a connection, got {:?}", other),
    }
    client
}

fn accepting_server(address: &str) -> WebsocketServerResource {
    let mut server = WebsocketServerResource::new();
    server.listen(address);
    assert_eq!(server.tick(), Some(address.to_string()));
    server
}

#[test]
fn server_and_client_handshake_gives_id_zero() {
    let mut server = accepting_server("127.0.0.1:9001");
    let mut client = connected_client("ws://127.0.0.1:9001");
    let id = server.accept_connection().unwrap();
    assert_eq!(id, 0);
    relay_to_client(&mut server, id, &mut client);
    assert_eq!(client.drain_event(), Some(WebsocketClientEvent::OnOpen(0)));
    assert_eq!(client.drain_event(), None);
}

#[test]
fn two_clients_get_ids_in_acceptance_order() {
    let mut server = accepting_server("127.0.0.1:9002");
    let mut first = connected_client("ws://127.0.0.1:9002");
    let mut second = connected_client("ws://127.0.0.1:9002");
    let a = server.accept_connection().unwrap();
    let b = server.accept_connection().unwrap();
    assert_eq!((a, b), (0, 1));
    // the second handshake reaches the wire first
    relay_to_client(&mut server, b, &mut second);
    relay_to_client(&mut server, a, &mut first);
    assert_eq!(second.drain_event(), Some(WebsocketClientEvent::OnOpen(1)));
    assert_eq!(first.drain_event(), Some(WebsocketClientEvent::OnOpen(0)));
    assert_eq!(server.drain_event(), Some(WebsocketServerEvent::OnOpen(0)));
    assert_eq!(server.drain_event(), Some(WebsocketServerEvent::OnOpen(1)));
    assert_eq!(server.drain_event(), None);
}

#[test]
fn ping_and_pong_cross_the_bridge() {
    let mut server = accepting_server("127.0.0.1:9003");
    let mut client = connected_client("ws://127.0.0.1:9003");
    let id = server.accept_connection().unwrap();
    relay_to_client(&mut server, id, &mut client);
    assert_eq!(client.drain_event(), Some(WebsocketClientEvent::OnOpen(0)));
    assert_eq!(server.drain_event(), Some(WebsocketServerEvent::OnOpen(0)));

    client.broadcast("ping".to_string());
    relay_to_server(&mut client, &mut server, id);
    assert_eq!(server.drain_event(), Some(WebsocketServerEvent::OnMessage(0, "ping".to_string())));

    server.broadcast("pong".to_string());
    relay_to_client(&mut server, id, &mut client);
    assert_eq!(client.drain_event(), Some(WebsocketClientEvent::OnMessage("pong".to_string())));
    assert_eq!(client.drain_event(), None);
    assert_eq!(server.drain_event(), None);
}

#[test]
fn close_before_open_is_quiet() {
    let mut client = WebsocketResource::new();
    client.close();
    assert_eq!(client.drain_event(), None);
    client.open("ws://127.0.0.1:9004");
    assert!(matches!(client.setup(), ClientSetup::Idle));
    assert_eq!(client.next_outbound(), WriterStep::Stop);
    assert_eq!(client.drain_event(), None);
    assert_eq!(client.drain_event(), None);
}

#[test]
fn broadcasts_are_written_in_order() {
    let mut client = connected_client("ws://127.0.0.1:9005");
    for m in ["one", "two", "three"] {
        client.broadcast(m.to_string());
    }
    for m in ["one", "two", "three"] {
        assert_eq!(client.next_outbound(), WriterStep::Write(m.to_string()));
    }
    assert_eq!(client.next_outbound(), WriterStep::Wait);

    let mut server = accepting_server("127.0.0.1:9005");
    let id = server.accept_connection().unwrap();
    server.broadcast("a".to_string());
    server.broadcast("b".to_string());
    assert_eq!(server.next_outbound(id), WriterStep::Write("##CLIENT_ID## 0".to_string()));
    assert_eq!(server.next_outbound(id), WriterStep::Write("a".to_string()));
    assert_eq!(server.next_outbound(id), WriterStep::Write("b".to_string()));
    assert_eq!(server.next_outbound(id), WriterStep::Wait);
}

#[test]
fn ids_strictly_increase() {
    let mut server = accepting_server("127.0.0.1:9006");
    let ids: Vec<u64> = (0..5).map(|_| server.accept_connection().unwrap()).collect();
    assert_eq!(ids, vec![0, 1, 2, 3, 4]);
    let mut other = WebsocketServerResource::new();
    assert_eq!(other.generate_next_client_id(), 0);
    assert_eq!(other.generate_next_client_id(), 1);
    assert_eq!(other.generate_next_client_id(), 2);
}

#[test]
fn handshake_frame_reads_back_as_opening() {
    for id in [0u64, 7, 10, 1234567890, u64::MAX] {
        let frame = bevy_ws::handshake_frame(id);
        assert_eq!(bevy_ws::classify_client_frame(frame), WebsocketClientEvent::OnOpen(id));
    }
    assert_eq!(bevy_ws::handshake_frame(42), "##CLIENT_ID## 42");
}

#[test]
fn only_well_formed_handshakes_open() {
    let message = |s: &str| WebsocketClientEvent::OnMessage(s.to_string());
    for text in [
        "hello",
        "",
        "##CLIENT_ID##",
        "##CLIENT_ID## ",
        "##CLIENT_ID## 12a",
        "##CLIENT_ID## 18446744073709551616",
        "##CLIENT_ID##  5",
        "x ##CLIENT_ID## 5",
    ] {
        assert_eq!(bevy_ws::classify_client_frame(text.to_string()), message(text));
    }
    assert_eq!(
        bevy_ws::classify_client_frame("##CLIENT_ID## 007".to_string()),
        WebsocketClientEvent::OnOpen(7)
    );
}

#[test]
fn drain_with_nothing_waiting_changes_nothing() {
    let mut client = connected_client("ws://127.0.0.1:9007");
    assert_eq!(client.drain_event(), None);
    assert_eq!(client.drain_event(), None);
    assert!(client.is_connected());
    let mut server = accepting_server("127.0.0.1:9007");
    assert_eq!(server.drain_event(), None);
    assert_eq!(server.connection_count(), 0);
}

#[test]
fn drains_run_dry_after_close() {
    let mut client = connected_client("ws://127.0.0.1:9008");
    client.on_frame(IncomingFrame::Text("a".to_string()));
    client.on_frame(IncomingFrame::Text("b".to_string()));
    client.close();
    assert_eq!(client.on_frame(IncomingFrame::Text("c".to_string())), ReaderStep::Stop);
    assert_eq!(client.drain_event(), Some(WebsocketClientEvent::OnMessage("a".to_string())));
    assert_eq!(client.drain_event(), Some(WebsocketClientEvent::OnMessage("b".to_string())));
    for _ in 0..3 {
        assert_eq!(client.drain_event(), None);
    }

    let mut server = accepting_server("127.0.0.1:9008");
    let id = server.accept_connection().unwrap();
    server.on_frame(id, IncomingFrame::Text("x".to_string()));
    server.close();
    assert_eq!(server.on_frame(id, IncomingFrame::Text("y".to_string())), ReaderStep::Stop);
    assert_eq!(server.drain_event(), Some(WebsocketServerEvent::OnOpen(0)));
    assert_eq!(server.drain_event(), Some(WebsocketServerEvent::OnMessage(0, "x".to_string())));
    for _ in 0..3 {
        assert_eq!(server.drain_event(), None);
    }
}

#[test]
fn close_stops_every_task() {
    let mut server = accepting_server("127.0.0.1:9009");
    let a = server.accept_connection().unwrap();
    let b = server.accept_connection().unwrap();
    server.broadcast("queued".to_string());
    server.close();
    assert!(!server.is_running());
    for id in [a, b] {
        assert_eq!(server.next_outbound(id), WriterStep::Stop);
        assert_eq!(server.on_frame(id, IncomingFrame::Other), ReaderStep::Stop);
    }
    assert_eq!(server.accept_connection(), None);

    let mut client = connected_client("ws://127.0.0.1:9009");
    client.broadcast("queued".to_string());
    client.close();
    assert_eq!(client.next_outbound(), WriterStep::Stop);
    assert_eq!(client.on_frame(IncomingFrame::Other), ReaderStep::Stop);
    assert!(!client.is_running());
}
