//! Decoder for the journal export format: a stream of log entries, each a
//! list of text and binary fields, read entry by entry through a sliding
//! window over a growable buffer.

pub mod config;
pub mod fieldname;
pub mod journald;
pub mod shiftbuffer;
pub mod tools;
