//! Session lister for a launcher front end.
//!
//! A terminal multiplexer prints one line per active session, in the shape
//! `name:windows:created`, where `windows` is a decimal window count and
//! `created` is the creation time in Unix epoch seconds.  This crate parses
//! such listings into typed session records, turns every record into a
//! search-result message, and plans the request loop that a launcher host
//! drives over line-delimited JSON.  The I/O itself (reading requests,
//! running the listing command, writing responses) lives outside the
//! library; everything here is pure logic with proved contracts.

pub mod listing;
pub mod parse;
pub mod request;
pub mod respond;
mod timefmt;
