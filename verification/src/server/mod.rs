//! The server's decisions: the per-connection state machine, the
//! configuration and play flows, and the player registry. The loops that
//! read and write the socket run them.
pub mod player_registry;
pub mod connection;
pub mod configuration_flow;
pub mod play_flow;
