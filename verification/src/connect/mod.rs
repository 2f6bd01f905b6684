//! Connections of actors to the outside: the routes of a server, websockets,
//! and a client that reconnects.

pub mod client;
pub mod client_laws;
pub mod extract;
pub mod handshake;
pub mod protocol;
pub mod request;
pub mod routes;
pub mod server;
pub mod server_laws;
mod slots;
pub mod web_route;
pub mod websocket;
pub mod ws_extract;
pub mod ws_route;
