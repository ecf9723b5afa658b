//! Synchronization with the other devices of the sharing domain.

pub mod codec;
pub mod crypto;
pub mod deadline;
pub mod dedupe;
pub mod device;
pub mod discovery;
pub mod display;
pub mod domain;
pub mod engine;
pub mod error;
pub mod file_stream;
pub mod flow;
pub mod handshake;
pub mod inbound;
pub mod ipv4;
pub mod item;
pub mod lifecycle;
pub mod logs;
pub mod marker;
pub mod members;
pub mod metrics;
pub mod queue;
pub mod sender;
pub mod socket;
pub mod state;
pub mod transfers;
pub mod udp;
pub mod watch;
pub mod wire;
pub mod workers;
