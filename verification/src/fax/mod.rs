//! Fax reception: TIFF parsing, T.4/T.6 decoding and page assembly.

pub mod bits;
pub mod codes;
pub mod encoding;
pub mod error;
pub mod group;
pub mod lines;
pub mod page;
pub mod spandsp;
pub mod tiff;
