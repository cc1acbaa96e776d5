//! Verified core of a small non-blocking socket server: buffer bookkeeping
//! for client connections, the server's event routing, HTTP header
//! collection and the HTTP echo responder.

pub mod client;
pub mod echo;
pub mod parser;
pub mod server;
pub mod transfer;
pub mod ws_server;
