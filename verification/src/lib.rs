//! The verified core of a desktop VNC viewer's loopback WebSocket-to-TCP
//! proxy: checking targets, reading client requests, keeping one-time
//! sessions, and the forwarding rule for WebSocket messages.

pub mod text;
pub mod target;
pub mod request;
pub mod session;
pub mod bridge;
