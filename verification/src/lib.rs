//! A concurrent, grep-like content search: the verified core.
//!
//! The crate holds the parts of the search pipeline that carry invariants:
//!
//! - [`line_buffer`] and [`line_reader`]: a growable byte buffer that hands
//!   out the lines of a stream, and a reader that numbers them;
//! - [`buffer_pool`]: a pool that recycles such buffers;
//! - [`matcher`]: matching a regular expression against the bytes of a line;
//! - [`search`] and [`stats`]: searching a source line by line, telling text
//!   from binary, and folding the counters of many sources;
//! - [`crawl`]: the bookkeeping by which a crawl of a directory tree knows
//!   when it is over;
//! - [`print`] and [`printer`]: the messages that searching tasks send, and
//!   what the printer writes for them, grouped by target or at once;
//! - [`arg_parse`], [`target`], [`time_log`] and [`error`]: the arguments of
//!   the command line, the targets of a run, its timings and its failures.
//!
//! Nothing here reads a file or writes to a terminal: sources are handed in
//! as bytes, and output is handed back as operations to carry out.

pub mod arg_parse;
pub mod buffer_pool;
pub mod crawl;
pub mod error;
pub mod line_buffer;
pub mod line_reader;
pub mod matcher;
pub mod print;
pub mod printer;
pub mod search;
pub mod stats;
pub mod target;
pub mod time_log;
