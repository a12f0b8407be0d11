//! A user-space TCP endpoint: sequence arithmetic, the per-connection state
//! machine, the connection table and the frame demultiplexer.
pub mod seq;
pub mod table;
pub mod tcp;
pub mod wire;
