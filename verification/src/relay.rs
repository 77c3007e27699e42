//! The decisions of a WebSocket tunnel once it is open: what each message
//! from either side turns into, and when the tunnel ends.
use vstd::prelude::*;

verus! {

/// Something that happened on one side of an open tunnel.
pub enum RelayEvent {
    /// A binary message from the WebSocket.
    WsBinary(Vec<u8>),
    /// A ping from the WebSocket, with its payload.
    WsPing(Vec<u8>),
    /// Any other WebSocket message (text, pong, raw frame).
    WsOther,
    /// The WebSocket closed, ended, or failed.
    WsClosed,
    /// Bytes read from the client.
    TcpData(Vec<u8>),
    /// The client closed its side, or reading from it failed.
    TcpClosed,
    /// Time passed with nothing else happening.
    Tick,
}

/// What the tunnel does about an event.
pub enum RelayAction {
    /// Write these bytes to the client.
    WriteTcp(Vec<u8>),
    /// Send these bytes to the WebSocket as a binary message.
    SendBinary(Vec<u8>),
    /// Answer a ping with a pong carrying the same payload.
    SendPong(Vec<u8>),
    /// Nothing to do; wait for the next event.
    Ignore,
    /// End the tunnel: close the WebSocket.
    Stop,
}

/// What the tunnel does about an event: data goes across unchanged, pings
/// are answered, other messages and the passing of time are ignored, and a
/// close on either side ends the tunnel.
pub fn relay_step(event: RelayEvent) -> (action: RelayAction)
    ensures
        match event {
            RelayEvent::WsBinary(d) => action matches RelayAction::WriteTcp(w) && w@ == d@,
            RelayEvent::WsPing(p) => action matches RelayAction::SendPong(q) && q@ == p@,
            RelayEvent::WsOther => action is Ignore,
            RelayEvent::WsClosed => action is Stop,
            RelayEvent::TcpData(d) => action matches RelayAction::SendBinary(w) && w@ == d@,
            RelayEvent::TcpClosed => action is Stop,
            RelayEvent::Tick => action is Ignore,
        },
{
    match event {
        RelayEvent::WsBinary(d) => RelayAction::WriteTcp(d),
        RelayEvent::WsPing(p) => RelayAction::SendPong(p),
        RelayEvent::WsOther => RelayAction::Ignore,
        RelayEvent::WsClosed => RelayAction::Stop,
        RelayEvent::TcpData(d) => RelayAction::SendBinary(d),
        RelayEvent::TcpClosed => RelayAction::Stop,
        RelayEvent::Tick => RelayAction::Ignore,
    }
}

/// What the tunnel does about an event while the proxy runs, or after it
/// was told to stop: once the proxy stops, every event, the passing of time
/// among them, ends the tunnel; until then, as `relay_step`.
pub fn relay_step_while(running: bool, event: RelayEvent) -> (action: RelayAction)
    ensures
        !running ==> action is Stop,
        running ==> match event {
            RelayEvent::WsBinary(d) => action matches RelayAction::WriteTcp(w) && w@ == d@,
            RelayEvent::WsPing(p) => action matches RelayAction::SendPong(q) && q@ == p@,
            RelayEvent::WsOther => action is Ignore,
            RelayEvent::WsClosed => action is Stop,
            RelayEvent::TcpData(d) => action matches RelayAction::SendBinary(w) && w@ == d@,
            RelayEvent::TcpClosed => action is Stop,
            RelayEvent::Tick => action is Ignore,
        },
{
    if running {
        relay_step(event)
    } else {
        RelayAction::Stop
    }
}

/// Whether the tunnel goes on after carrying out an action that sends
/// something: a failed write to the client or a failed send of data ends it;
/// a pong that could not be sent does not.
pub fn continues_after_send(action: &RelayAction, sent: bool) -> (go_on: bool)
    ensures
        go_on == match action {
            RelayAction::WriteTcp(_) => sent,
            RelayAction::SendBinary(_) => sent,
            RelayAction::SendPong(_) => true,
            RelayAction::Ignore => true,
            RelayAction::Stop => false,
        },
{
    match action {
        RelayAction::WriteTcp(_) => sent,
        RelayAction::SendBinary(_) => sent,
        RelayAction::SendPong(_) => true,
        RelayAction::Ignore => true,
        RelayAction::Stop => false,
    }
}

/// The first message of a tunnel: the client's init packet, unchanged.
pub fn opening_message(init: &[u8; 64]) -> (m: Vec<u8>)
    ensures
        m@ == init@,
{
    vstd::slice::slice_to_vec(init.as_slice())
}

} // verus!
