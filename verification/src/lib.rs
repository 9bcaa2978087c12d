//! Bounded-memory extraction of matching records from daily CSV extracts.
//!
//! A run reads a CSV source in batches, keeps the records whose key field is
//! in a key set, gathers them in a buffer of fixed capacity and hands the
//! buffer's valid rows out as CSV text, batch after batch, until the input
//! ends or the expected number of rows has been persisted.

pub mod buffer;
pub mod calendar;
pub mod chunk_reader;
pub mod codec;
pub mod engine;
pub mod key_set;
pub mod link_ids;
pub mod paths;
pub mod totals;
