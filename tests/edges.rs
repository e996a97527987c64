use bevy_ws::{
    ClientSetup, IncomingFrame, ReaderStep, WebsocketClientEvent, WebsocketResource,
    WebsocketServerEvent, WebsocketServerResource, WriterStep, WsServerState,
    CLIENT_INBOUND_CAPACITY, CLIENT_OUTBOUND_CAPACITY, SERVER_INBOUND_CAPACITY,
    SERVER_OUTBOUND_CAPACITY,
};

#[test]
fn capacities_are_fixed() {
    assert_eq!(CLIENT_INBOUND_CAPACITY, 10);
    assert_eq!(CLIENT_OUTBOUND_CAPACITY, 10);
    assert_eq!(SERVER_INBOUND_CAPACITY, 100);
    assert_eq!(SERVER_OUTBOUND_CAPACITY, 10);
}

#[test]
fn broadcast_without_connection_is_dropped_and_counted() {
    let mut client = WebsocketResource::default();
    client.broadcast("lost".to_string());
    assert_eq!(client.dropped_messages(), 1);
    client.open("ws://127.0.0.1:9100");
    assert_eq!(client.next_outbound(), WriterStep::Stop);
    assert_eq!(client.dropped_messages(), 1);
}

#[test]
fn full_client_queue_drops_the_eleventh_message() {
    let mut client = WebsocketResource::new();
    client.open("ws://127.0.0.1:9101");
    assert!(matches!(client.setup(), ClientSetup::Connect(_)));
    for i in 0..11 {
        client.broadcast(format!("m{}", i));
    }
    assert_eq!(client.dropped_messages(), 1);
    for i in 0..10 {
        assert_eq!(client.next_outbound(), WriterStep::Write(format!("m{}", i)));
    }
    assert_eq!(client.next_outbound(), WriterStep::Wait);
}

#[test]
fn full_client_inbox_loses_events() {
    let mut client = WebsocketResource::new();
    client.open("ws://127.0.0.1:9102");
    assert!(matches!(client.setup(), ClientSetup::Connect(_)));
    for i in 0..12 {
        assert_eq!(client.on_frame(IncomingFrame::Text(format!("e{}", i))), ReaderStep::Continue);
    }
    assert_eq!(client.lost_events(), 2);
    for i in 0..10 {
        assert_eq!(client.drain_event(), Some(WebsocketClientEvent::OnMessage(format!("e{}", i))));
    }
    assert_eq!(client.drain_event(), None);
}

#[test]
fn malformed_address_is_rejected() {
    let mut client = WebsocketResource::new();
    client.open("not a url");
    assert!(matches!(client.setup(), ClientSetup::Rejected));
    assert!(!client.is_connected());
    assert!(matches!(client.setup(), ClientSetup::Idle));
    client.broadcast("x".to_string());
    assert_eq!(client.dropped_messages(), 1);
}

#[test]
fn second_open_replaces_the_address() {
    let mut client = WebsocketResource::new();
    client.open("ws://127.0.0.1:1");
    client.open("ws://127.0.0.1:2");
    assert_eq!(client.take_pending_address(), Some("ws://127.0.0.1:2".to_string()));
    assert_eq!(client.take_pending_address(), None);
}

#[test]
fn client_stream_end_and_error_close_the_connection() {
    for last in [IncomingFrame::End, IncomingFrame::Error] {
        let mut client = WebsocketResource::new();
        client.open("ws://127.0.0.1:9103");
        assert!(matches!(client.setup(), ClientSetup::Connect(_)));
        assert_eq!(client.on_frame(IncomingFrame::Other), ReaderStep::Continue);
        assert_eq!(client.on_frame(last), ReaderStep::Stop);
        assert_eq!(client.drain_event(), Some(WebsocketClientEvent::OnClose));
        assert_eq!(client.drain_event(), None);
        assert!(!client.is_connected());
        assert_eq!(client.next_outbound(), WriterStep::Stop);
    }
}

#[test]
fn listen_life_cycle() {
    let mut server = WebsocketServerResource::default();
    assert_eq!(server.state(), WsServerState::Idle);
    assert_eq!(server.tick(), None);
    assert_eq!(server.accept_connection(), None);
    server.listen("127.0.0.1:9200");
    assert_eq!(server.state(), WsServerState::Starting);
    server.listen("127.0.0.1:9201");
    assert_eq!(server.tick(), Some("127.0.0.1:9201".to_string()));
    assert_eq!(server.state(), WsServerState::Accepting);
    assert_eq!(server.tick(), None);
    server.listen("127.0.0.1:9202");
    assert_eq!(server.state(), WsServerState::Accepting);
    assert_eq!(server.tick(), None);
}

#[test]
fn closed_server_spawns_no_listener() {
    let mut server = WebsocketServerResource::new();
    server.listen("127.0.0.1:9203");
    server.close();
    assert_eq!(server.tick(), None);
    assert_eq!(server.state(), WsServerState::Starting);
}

#[test]
fn server_drains_round_robin() {
    let mut server = WebsocketServerResource::new();
    server.listen("127.0.0.1:9204");
    server.tick();
    let a = server.accept_connection().unwrap();
    let b = server.accept_connection().unwrap();
    for t in ["a1", "a2"] {
        server.on_frame(a, IncomingFrame::Text(t.to_string()));
    }
    server.on_frame(b, IncomingFrame::Text("b1".to_string()));
    let drained: Vec<WebsocketServerEvent> =
        std::iter::from_fn(|| server.drain_event()).collect();
    assert_eq!(
        drained,
        vec![
            WebsocketServerEvent::OnOpen(0),
            WebsocketServerEvent::OnOpen(1),
            WebsocketServerEvent::OnMessage(0, "a1".to_string()),
            WebsocketServerEvent::OnMessage(1, "b1".to_string()),
            WebsocketServerEvent::OnMessage(0, "a2".to_string()),
        ]
    );
}

#[test]
fn server_connection_end_emits_close() {
    let mut server = WebsocketServerResource::new();
    server.listen("127.0.0.1:9205");
    server.tick();
    let id = server.accept_connection().unwrap();
    assert_eq!(server.on_frame(id, IncomingFrame::Other), ReaderStep::Continue);
    assert_eq!(server.on_frame(id, IncomingFrame::Error), ReaderStep::Stop);
    assert_eq!(server.drain_event(), Some(WebsocketServerEvent::OnOpen(0)));
    assert_eq!(server.drain_event(), Some(WebsocketServerEvent::OnClose(0)));
    assert_eq!(server.next_outbound(id), WriterStep::Stop);
    assert_eq!(server.on_frame(id, IncomingFrame::Text("late".to_string())), ReaderStep::Stop);
    assert_eq!(server.drain_event(), None);
    // a broadcast skips the ended connection without counting a drop
    server.broadcast("m".to_string());
    assert_eq!(server.dropped_messages(), 0);
}

#[test]
fn unknown_connection_is_not_served() {
    let mut server = WebsocketServerResource::new();
    server.listen("127.0.0.1:9206");
    server.tick();
    assert_eq!(server.on_frame(3, IncomingFrame::Text("x".to_string())), ReaderStep::Stop);
    assert_eq!(server.next_outbound(3), WriterStep::Stop);
    assert_eq!(server.drain_event(), None);
}

#[test]
fn full_server_queue_drops_only_for_that_connection() {
    let mut server = WebsocketServerResource::new();
    server.listen("127.0.0.1:9207");
    server.tick();
    let a = server.accept_connection().unwrap();
    for i in 0..10 {
        server.broadcast(format!("m{}", i));
    }
    let b = server.accept_connection().unwrap();
    server.broadcast("last".to_string());
    assert_eq!(server.dropped_messages(), 1);
    assert_eq!(server.next_outbound(b), WriterStep::Write("##CLIENT_ID## 1".to_string()));
    assert_eq!(server.next_outbound(b), WriterStep::Write("last".to_string()));
    assert_eq!(server.next_outbound(a), WriterStep::Write("##CLIENT_ID## 0".to_string()));
    for i in 0..10 {
        assert_eq!(server.next_outbound(a), WriterStep::Write(format!("m{}", i)));
    }
    assert_eq!(server.next_outbound(a), WriterStep::Wait);
}

#[test]
fn full_server_inbox_loses_events() {
    let mut server = WebsocketServerResource::new();
    server.listen("127.0.0.1:9208");
    server.tick();
    let id = server.accept_connection().unwrap();
    for i in 0..100 {
        server.on_frame(id, IncomingFrame::Text(format!("e{}", i)));
    }
    assert_eq!(server.lost_events(), 1);
    assert_eq!(server.drain_event(), Some(WebsocketServerEvent::OnOpen(0)));
    for i in 0..99 {
        assert_eq!(server.drain_event(), Some(WebsocketServerEvent::OnMessage(0, format!("e{}", i))));
    }
    assert_eq!(server.drain_event(), None);
}
