//! A bridge between a tick-driven polling host and websocket connections.
//!
//! The library holds the synchronous side of the bridge: the bounded queues
//! between the poll domain and the per-connection tasks, the decisions those
//! tasks take on each frame or wake-up, the server's listen life cycle and
//! connection registry, and the handshake that tells a client its id. The
//! sockets, the async runtime and the host's scheduler drive it from outside:
//! a reader task hands each frame to `on_frame` and stops when told, a writer
//! task asks `next_outbound` what to write, and the host calls the setup step
//! and `drain_event` once per tick.

pub mod address;
pub mod client;
pub mod event;
pub mod handshake;
pub mod server;
pub mod server_laws;

pub use client::{ClientModel, ClientSetup, WebsocketResource, CLIENT_INBOUND_CAPACITY, CLIENT_OUTBOUND_CAPACITY};
pub use event::{IncomingFrame, ReaderStep, WebsocketClientEvent, WebsocketServerEvent, WriteAction, WriterStep};
pub use handshake::{classify_client_frame, handshake_frame};
pub use server::{ConnectionModel, ServerModel, WebsocketServerResource, WsServerState, SERVER_INBOUND_CAPACITY, SERVER_OUTBOUND_CAPACITY};
