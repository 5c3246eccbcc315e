//! A portable, resource-constrained network stack: an abstract transport
//! capability layer over TCP and UDP sockets, an incremental HTTP/1.1 request
//! parser and server loop, an HTTP/1.1 client exchange, a minimal URL parser,
//! and an SNTP time-offset client.

pub mod client;
pub mod extras;
pub mod head;
pub mod middleware;
pub mod req;
pub mod resp;
pub mod server;
pub mod sntp;
pub mod stack;
pub mod text;
pub mod url;
