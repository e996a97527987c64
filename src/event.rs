use vstd::prelude::*;

verus! {

/// What the server side of the bridge hands to the polling host.
#[derive(Debug, Clone, PartialEq, Eq)]
pub enum WebsocketServerEvent {
    OnOpen(u64),
    OnMessage(u64, String),
    OnClose(u64),
}

/// What the client side of the bridge hands to the polling host.
#[derive(Debug, Clone, PartialEq, Eq)]
pub enum WebsocketClientEvent {
    OnOpen(u64),
    OnMessage(String),
    OnClose,
}

/// One item a connection's reader task took off the transport.
#[derive(Debug, Clone, PartialEq, Eq)]
pub enum IncomingFrame {
    /// A text frame and its payload.
    Text(String),
    /// A frame that is not text (binary, ping, pong): ignored.
    Other,
    /// The stream ended.
    End,
    /// The stream yielded a protocol error.
    Error,
}

/// What a reader task does after handing a frame to the bridge.
#[derive(Debug, Clone, Copy, PartialEq, Eq)]
pub enum ReaderStep {
    Continue,
    Stop,
}

/// What a writer task does next.
#[derive(Debug, Clone, PartialEq, Eq)]
pub enum WriterStep {
    /// Write this text frame to the transport.
    Write(String),
    /// Nothing to write yet: wait for the next wake-up.
    Wait,
    /// Leave the loop.
    Stop,
}

/// The mathematical value of a `WriterStep`.
pub enum WriteAction {
    Write(Seq<char>),
    Wait,
    Stop,
}

impl View for WriterStep {
    type V = WriteAction;

    open spec fn view(&self) -> WriteAction {
        match self {
            WriterStep::Write(s) => WriteAction::Write(s@),
            WriterStep::Wait => WriteAction::Wait,
            WriterStep::Stop => WriteAction::Stop,
        }
    }
}

} // verus!
