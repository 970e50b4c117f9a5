//! WireGuard: Noise IKpsk2 handshake, transport keys, replay window and
//! the client configuration file.

pub mod crypto;
pub mod noise;
pub mod replay;
pub mod transport;
pub mod handshake;
pub mod bytes;
pub mod config;
pub mod messages;
pub mod protocol;
pub mod session;
pub mod engine;
