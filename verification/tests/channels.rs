//! Which channel a record goes to.

use tracing::Level;
use tracing_build_script::{select, BuildScriptMakeWriter, BuildScriptWriter, ChannelKind, Severity};

#[test]
fn warnings_and_errors_are_directives() {
    assert_eq!(select(Severity::Warn), ChannelKind::Directive);
    assert_eq!(select(Severity::Error), ChannelKind::Directive);
}

#[test]
fn everything_else_is_plain() {
    assert_eq!(select(Severity::Trace), ChannelKind::Plain);
    assert_eq!(select(Severity::Debug), ChannelKind::Plain);
    assert_eq!(select(Severity::Info), ChannelKind::Plain);
}

#[test]
fn severities_are_ordered() {
    assert!(Severity::Trace < Severity::Debug);
    assert!(Severity::Debug < Severity::Info);
    assert!(Severity::Info < Severity::Warn);
    assert!(Severity::Warn < Severity::Error);
}

#[test]
fn writers_know_their_channel() {
    assert_eq!(BuildScriptWriter::informational().channel(), ChannelKind::Plain);
    assert_eq!(BuildScriptWriter::errors_and_warnings().channel(), ChannelKind::Directive);
    assert_eq!(BuildScriptMakeWriter.make_writer().channel(), ChannelKind::Plain);
}

#[test]
fn writer_for_a_severity() {
    let make = BuildScriptMakeWriter;
    assert_eq!(make.make_writer_for_severity(Severity::Trace).channel(), ChannelKind::Plain);
    assert_eq!(make.make_writer_for_severity(Severity::Debug).channel(), ChannelKind::Plain);
    assert_eq!(make.make_writer_for_severity(Severity::Info).channel(), ChannelKind::Plain);
    assert_eq!(make.make_writer_for_severity(Severity::Warn).channel(), ChannelKind::Directive);
    assert_eq!(make.make_writer_for_severity(Severity::Error).channel(), ChannelKind::Directive);
}

#[test]
fn writer_for_a_level() {
    let make = BuildScriptMakeWriter;
    assert_eq!(make.make_writer_for(&Level::TRACE).channel(), ChannelKind::Plain);
    assert_eq!(make.make_writer_for(&Level::DEBUG).channel(), ChannelKind::Plain);
    assert_eq!(make.make_writer_for(&Level::INFO).channel(), ChannelKind::Plain);
    assert_eq!(make.make_writer_for(&Level::WARN).channel(), ChannelKind::Directive);
    assert_eq!(make.make_writer_for(&Level::ERROR).channel(), ChannelKind::Directive);
}

#[test]
fn writer_for_a_level_starts_its_record() {
    let mut writer = BuildScriptMakeWriter.make_writer_for(&Level::ERROR);
    let mut chunks = writer.write_all(b"failed\n");
    assert_eq!(chunks.next_chunk(), Some(&b"cargo::warning="[..]));
    assert_eq!(chunks.next_chunk(), Some(&b"failed"[..]));
    assert_eq!(chunks.next_chunk(), None);
    assert_eq!(writer.finish(), Some(b'\n'));

    let mut writer = BuildScriptMakeWriter.make_writer_for(&Level::INFO);
    let mut chunks = writer.write_all(b"fine\n");
    assert_eq!(chunks.next_chunk(), Some(&b"fine\n"[..]));
    assert_eq!(chunks.next_chunk(), None);
    assert_eq!(writer.finish(), None);
}
