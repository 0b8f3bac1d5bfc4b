pub mod buffer;
pub mod connection;
pub mod error;
pub mod handshake;
pub mod listener;
pub mod net;
pub mod protocol;
pub mod server;
pub mod session;
pub mod table;
pub mod time;
pub mod transport;
