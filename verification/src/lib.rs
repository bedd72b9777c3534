//! The rules of a clipboard-sync daemon: reconnect pacing, pairing, mesh relay,
//! retransmission, resync and the local command set, as verified functions on
//! plain values.

pub mod backoff;
pub mod battery;
pub mod clock;
pub mod cmd;
pub mod codec;
pub mod config;
pub mod discovery;
pub mod driver;
pub mod handshake;
pub mod idmap;
pub mod ids;
pub mod ipc;
pub mod net;
pub mod text;
pub mod uri;
pub mod wire;
