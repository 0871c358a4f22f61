//! A poll-based reactor for Bitcoin peers that talk over encrypted connections.

pub mod addr;
pub mod bip324_info;
pub mod call_laws;
pub mod connection_laws;
pub mod cycle;
pub mod dial;
pub mod framing;
pub mod io;
pub mod laws;
pub mod node;
pub mod part_laws;
pub mod peers;
pub mod process_laws;
pub mod reactor;
pub mod reactor_laws;
pub mod session;
pub mod sources;
pub mod time;
pub mod transport;
