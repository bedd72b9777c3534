//! The daemon's rules: what it does on each message, command and tick of a timer.

pub mod commands;
pub mod content;
pub mod dialing;
pub mod discovered;
pub mod effects;
pub mod events;
pub mod heartbeat;
pub mod inbound;
pub mod inflight;
pub mod node;
pub mod outbound;
pub mod pairing;
pub mod peers;
pub mod pin;
pub mod reassembly;
pub mod receive;
pub mod rekey;
pub mod resync;
pub mod session;
pub mod store;
pub mod vault;
pub mod watcher;
