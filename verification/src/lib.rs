//! Writers that fit log records to the way `cargo` reads the output of a
//! build script.
//!
//! `cargo` takes every line of a build script's standard output that begins
//! with `cargo::warning=` as a warning to show. A record sent there therefore
//! has to stay on one line: the marker is put in front of it once, every line
//! break inside it is written out as the two characters `\n` or `\r`, and only
//! the line break that ends the record is left as it is.
//!
//! This crate holds the rules and does no I/O itself. A [`BuildScriptWriter`]
//! is told what the caller is about to write and hands back, chunk by chunk,
//! the bytes that have to reach the stream instead.

pub mod channel;
pub mod escape;
pub mod make_writer;
pub mod record;
pub mod transducer;
pub mod writer;

pub use channel::{channel_of, level_severity, select, ChannelKind, Severity};
pub use escape::{char_is_special, escape_special};
pub use make_writer::BuildScriptMakeWriter;
pub use transducer::{ErrorAndWarnState, MARKER};
pub use writer::{special_position, BuildScriptWriter, BuildScriptWriterInner, Chunks};
