//! The rule by which the proxy forwards WebSocket messages to the VNC
//! server's TCP stream.

use vstd::prelude::*;

verus! {

broadcast use vstd::string::group_string_axioms;

/// Largest binary message, in bytes, that the proxy forwards: 8 MiB.
pub const MAX_WS_FRAME_SIZE: usize = 8388608;

/// A message read from the WebSocket, by kind; a binary message carries the
/// length of its payload.
pub enum WsMessage {
    Binary(usize),
    Text,
    Ping,
    Pong,
    Close,
    Frame,
}

/// What the WebSocket-to-TCP pump does with a message.
pub enum PumpStep {
    /// Write the payload to the TCP stream.
    Forward,
    /// Read on; the message needs no forwarding.
    Skip,
    /// The client closed: shut the TCP side down and finish.
    Finish,
    /// Stop the bridge with this error.
    Fail(String),
}

/// Binary messages up to `MAX_WS_FRAME_SIZE` bytes are forwarded, larger
/// ones end the bridge; a close finishes it; pings and pongs are passed
/// over; any other message ends the bridge, since VNC traffic is binary.
pub fn ws_message_step(msg: &WsMessage) -> (step: PumpStep)
    ensures
        match *msg {
            WsMessage::Binary(n) => if n > MAX_WS_FRAME_SIZE {
                step matches PumpStep::Fail(e) && e@ == "websocket frame exceeds proxy limit"@
            } else {
                step is Forward
            },
            WsMessage::Close => step is Finish,
            WsMessage::Ping | WsMessage::Pong => step is Skip,
            WsMessage::Text | WsMessage::Frame => step matches PumpStep::Fail(e) && e@
                == "proxy accepts binary websocket frames only"@,
        },
{
    match msg {
        WsMessage::Binary(n) => {
            if *n > MAX_WS_FRAME_SIZE {
                PumpStep::Fail("websocket frame exceeds proxy limit".to_string())
            } else {
                PumpStep::Forward
            }
        },
        WsMessage::Close => PumpStep::Finish,
        WsMessage::Ping | WsMessage::Pong => PumpStep::Skip,
        WsMessage::Text | WsMessage::Frame => PumpStep::Fail(
            "proxy accepts binary websocket frames only".to_string(),
        ),
    }
}

} // verus!
