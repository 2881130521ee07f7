//! Watches the disk of a Solana validator, its votes and its network drops on
//! one timeline, and decides the alerts of each window.

pub mod cli;
pub mod correlate;
pub mod counters;
pub mod disk;
pub mod event;
pub mod json;
pub mod net;
pub mod number;
pub mod order;
pub mod output;
pub mod probe;
pub mod report;
pub mod rpc;
pub mod sockets;
pub mod source;
pub mod table;
pub mod text;
pub mod timeline;
pub mod validator;
