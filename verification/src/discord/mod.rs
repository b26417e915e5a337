//! The Discord side: voice connections, mixing, and the command that calls phones.

pub mod command;
pub mod connection;
pub mod mixing;
pub mod ring;
