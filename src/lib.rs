//! A world clock: builds one lookup request per time zone, turns each
//! decoded answer into a table row, and orders the rows by UTC offset.
pub mod offset;
pub mod record;
pub mod aggregate;
pub mod config;
