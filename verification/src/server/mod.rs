//! The rules that an ICAP server applies to the messages it is handed.

pub mod connection;
pub mod handler;
pub mod listener;
