//! Conversion of line-delimited JSON metric records into line protocol, and
//! the bookkeeping that drives bounded concurrent batch writes.
pub mod batching;
pub mod completer;
pub mod dispatch;
pub mod fragment;
pub mod line_protocol;
pub mod schema_index;
