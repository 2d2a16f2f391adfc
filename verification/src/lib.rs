//! Wire protocol, frame codec and HTTP header scanner of a TCP tunnelling proxy.
pub mod buffer;
pub mod client;
pub mod http_parser;
pub mod protocol;
pub mod server;
pub mod text;
pub mod utils;
pub mod wire;
