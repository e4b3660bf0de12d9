//! The two channels, and which of them a record of a given severity goes to.

use tracing::Level;
use vstd::prelude::*;

verus! {

/// The level type of the `tracing` crate. Nothing inside it is visible here.
#[verifier::external_type_specification]
#[verifier::external_body]
pub struct ExLevel(Level);

/// How grave a record is, from the least to the most.
#[derive(Clone, Copy, Debug, PartialEq, Eq, PartialOrd, Ord, Hash)]
pub enum Severity {
    Trace,
    Debug,
    Info,
    Warn,
    Error,
}

/// Where a record is written.
#[derive(Clone, Copy, Debug, PartialEq, Eq, Hash)]
pub enum ChannelKind {
    /// The stream that nobody reads for directives. Bytes go there unchanged.
    Plain,
    /// The stream on which a line that begins with the marker is a warning.
    Directive,
}

/// The channel for a record of the given severity: warnings and errors go to
/// the directive channel, everything else to the plain one.
pub open spec fn channel_of(severity: Severity) -> ChannelKind {
    match severity {
        Severity::Warn | Severity::Error => ChannelKind::Directive,
        Severity::Trace | Severity::Debug | Severity::Info => ChannelKind::Plain,
    }
}

/// The severity that a level of `tracing` stands for. Nothing is known of
/// it to the verifier but that it is the same for the same level.
pub uninterp spec fn level_severity(level: Level) -> Severity;

/// Holds a `tracing::Level` against the five constants of that type,
/// `Level::TRACE`, `Level::DEBUG`, `Level::INFO`, `Level::WARN` and
/// `Level::ERROR`, and gives the severity of the same name.
///
/// Taken on trust: that the result depends on nothing but the level, so that
/// it can go by the name `level_severity`. Which severity comes out for which
/// level is not stated here; it is what the body says.
#[verifier::external_body]
pub(crate) fn severity_of(level: &Level) -> (severity: Severity)
    ensures
        severity == level_severity(*level),
{
    match *level {
        Level::TRACE => Severity::Trace,
        Level::DEBUG => Severity::Debug,
        Level::INFO => Severity::Info,
        Level::WARN => Severity::Warn,
        Level::ERROR => Severity::Error,
    }
}

/// Picks the channel for a record of the given severity.
pub fn select(severity: Severity) -> (kind: ChannelKind)
    ensures
        kind == channel_of(severity),
{
    match severity {
        Severity::Warn | Severity::Error => ChannelKind::Directive,
        Severity::Trace | Severity::Debug | Severity::Info => ChannelKind::Plain,
    }
}

} // verus!
