//! The SIP side: calls, registrations, media and their bookkeeping.

pub mod auth;
pub mod clock;
pub mod events;
pub mod media;
pub mod ops;
pub mod players;
pub mod rtp;
pub mod sdp;
pub mod setup;
pub mod tracking;
pub mod types;
pub mod utils;
