//! The rules behind an export of a message database: who a message is from, which chat it belongs
//! to, what the files and directories are called, and what a session does in which order.

pub mod laws;
pub mod listing;
pub mod options;
pub mod order;
pub mod runtime;
pub mod tables;
pub mod text;
