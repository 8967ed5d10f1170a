//! The Java Edition protocol: field encodings, packets by connection state,
//! and the framing codec.
pub mod ser;
pub mod status;
pub mod login;
pub mod configuration;
pub mod ids;
pub mod play;
pub mod movement;
pub mod codec;
pub mod state;
