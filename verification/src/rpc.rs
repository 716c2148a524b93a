//! Messages between peers.

pub mod connection_io;
pub mod message_stream;
pub mod peer;
