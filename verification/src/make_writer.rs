//! Making the writer for a record.

use crate::channel::{channel_of, level_severity, select, severity_of, ChannelKind, Severity};
use crate::writer::{BuildScriptWriter, BuildScriptWriterInner};
use tracing::Level;
use vstd::prelude::*;

verus! {

/// Makes a fresh [`BuildScriptWriter`] for each record.
///
/// Warnings and errors get a writer for the directive channel, where `cargo`
/// shows them. All other records get one for the plain channel, which is seen
/// only in a verbose build.
///
/// There is no writer that would make `cargo` report an error: that would
/// abort the build, which is not always wanted.
#[derive(Clone, Copy, Debug)]
pub struct BuildScriptMakeWriter;

impl BuildScriptMakeWriter {
    /// The writer for a record of which nothing is known: one for the plain
    /// channel.
    pub fn make_writer(&self) -> (writer: BuildScriptWriter)
        ensures
            writer@ == BuildScriptWriterInner::Informational,
    {
        BuildScriptWriter::informational()
    }

    /// The writer for a record of the given level: a fresh one for the
    /// channel that the level's severity selects.
    pub fn make_writer_for(&self, level: &Level) -> (writer: BuildScriptWriter)
        ensures
            writer@ == BuildScriptWriterInner::fresh(channel_of(level_severity(*level))),
    {
        self.make_writer_for_severity(severity_of(level))
    }

    /// The writer for a record of the given severity: a fresh one for the
    /// channel that the severity selects.
    pub fn make_writer_for_severity(&self, severity: Severity) -> (writer: BuildScriptWriter)
        ensures
            writer@ == BuildScriptWriterInner::fresh(channel_of(severity)),
    {
        match select(severity) {
            ChannelKind::Directive => BuildScriptWriter::errors_and_warnings(),
            ChannelKind::Plain => BuildScriptWriter::informational(),
        }
    }
}

} // verus!
