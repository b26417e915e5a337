//! The decision logic of a SIP to Discord voice bridge, with fax reception.
//!
//! Every item states its behaviour in a contract that is proved. The program
//! around the library performs the I/O, and asks the library what to do.

pub mod call;
pub mod config;
pub mod discord;
pub mod fax;
pub mod routing;
pub mod services;
pub mod sip;
pub mod sorting;
pub mod text;
