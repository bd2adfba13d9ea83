//! A bridge between a UI host and local daemons that speak HTTP/1.1 over Unix
//! sockets: request framing, response parsing, chunked transfer-encoding,
//! Server-Sent-Events decoding and stream multiplexing, socket resolution and
//! daemon liveness tracking.
pub mod bytes;
pub mod chunked;
pub mod sse;
pub mod http;
pub mod response;
pub mod stream;
pub mod resolver;
pub mod liveness;
pub mod text;
pub mod plugins;
pub mod plugin_watch;
pub mod config_watch;
pub mod personality;
pub mod traffic;
pub mod chat;
