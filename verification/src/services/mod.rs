//! Services that the bridge is built from.

pub mod snowflake;
pub mod sound;
