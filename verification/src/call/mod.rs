//! The bridge between SIP calls and Discord voice channels.

pub mod coordinator;
pub mod dispatch;
pub mod fax;
pub mod health;
pub mod menu;
pub mod outbound;
pub mod script;
pub mod state;
