//! The chunks of a single call, one by one, and the escape policy.

use tracing_build_script::{
    char_is_special, escape_special, special_position, BuildScriptWriter, MARKER,
};

/// All chunks of one call, in their order.
fn chunks_of(writer: &mut BuildScriptWriter, buf: &[u8]) -> Vec<Vec<u8>> {
    let mut chunks = writer.write_all(buf);
    let mut all = Vec::new();
    while let Some(chunk) = chunks.next_chunk() {
        all.push(chunk.to_vec());
    }
    // Once nothing is left, nothing comes any more.
    assert_eq!(chunks.next_chunk(), None);
    all
}

#[test]
fn marker_is_the_cargo_warning_token() {
    assert_eq!(&MARKER, b"cargo::warning=");
}

#[test]
fn special_bytes_are_line_feed_and_carriage_return() {
    for ch in 0u8..=255 {
        assert_eq!(char_is_special(ch), ch == b'\n' || ch == b'\r', "{ch}");
    }
    for ch in [0u8, b'\t', b'"', b'\\', 0x0b, 0x0c, b'n', b'r'] {
        assert!(!char_is_special(ch));
    }
}

#[test]
fn escapes_are_backslash_and_letter() {
    assert_eq!(escape_special(b'\n'), b"\\n");
    assert_eq!(escape_special(b'\r'), b"\\r");
    assert_eq!(escape_special(b'\n'), [0x5c, 0x6e]);
    assert_eq!(escape_special(b'\r'), [0x5c, 0x72]);
}

#[test]
fn position_of_the_first_special_byte() {
    assert_eq!(special_position(b""), None);
    assert_eq!(special_position(b"no special byte\t\0"), None);
    assert_eq!(special_position(b"\n"), Some(0));
    assert_eq!(special_position(b"ab\rcd\n"), Some(2));
    assert_eq!(special_position(b"abcd\n"), Some(4));
}

#[test]
fn message_without_special_bytes_is_one_chunk() {
    let mut writer = BuildScriptWriter::errors_and_warnings();
    let chunks = chunks_of(&mut writer, b"a message of some length");
    assert_eq!(chunks, [b"cargo::warning=".to_vec(), b"a message of some length".to_vec()]);

    // The second call owes nothing.
    let chunks = chunks_of(&mut writer, b" goes on");
    assert_eq!(chunks, [b" goes on".to_vec()]);
    assert_eq!(writer.finish(), None);
}

#[test]
fn runs_and_escapes_take_turns() {
    let mut writer = BuildScriptWriter::errors_and_warnings();
    let chunks = chunks_of(&mut writer, b"ab\ncd\r\nef\n");
    let expected: [&[u8]; 7] = [b"cargo::warning=", b"ab", b"\\n", b"cd", b"\\r", b"\\n", b"ef"];
    assert_eq!(chunks, expected);
    assert_eq!(writer.finish(), Some(b'\n'));
}

#[test]
fn held_byte_is_escaped_by_the_next_call() {
    let mut writer = BuildScriptWriter::errors_and_warnings();
    assert_eq!(chunks_of(&mut writer, b"one\r"), [b"cargo::warning=".to_vec(), b"one".to_vec()]);
    assert_eq!(chunks_of(&mut writer, b"two\n"), [b"\\r".to_vec(), b"two".to_vec()]);
    assert_eq!(chunks_of(&mut writer, b"\n"), [b"\\n".to_vec()]);
    assert_eq!(chunks_of(&mut writer, b"\nx"), [b"\\n".to_vec(), b"\\n".to_vec(), b"x".to_vec()]);
    assert_eq!(chunks_of(&mut writer, b"y"), [b"y".to_vec()]);
    assert_eq!(writer.finish(), None);
}

#[test]
fn call_without_input() {
    let mut writer = BuildScriptWriter::errors_and_warnings();
    assert_eq!(chunks_of(&mut writer, b""), [b"cargo::warning=".to_vec()]);
    assert!(chunks_of(&mut writer, b"").is_empty());

    let mut writer = BuildScriptWriter::informational();
    assert!(chunks_of(&mut writer, b"").is_empty());
}

#[test]
fn plain_channel_gives_the_input_as_one_chunk() {
    let mut writer = BuildScriptWriter::informational();
    let chunks = chunks_of(&mut writer, b"ab\ncd\r\nef\n");
    assert_eq!(chunks, [b"ab\ncd\r\nef\n".to_vec()]);
    assert_eq!(writer.finish(), None);
}

#[test]
fn chunks_borrow_from_the_input() {
    let buf = b"head\ntail".to_vec();
    let mut writer = BuildScriptWriter::errors_and_warnings();
    let mut chunks = writer.write_all(&buf);
    assert_eq!(chunks.next_chunk(), Some(&b"cargo::warning="[..]));
    let head = chunks.next_chunk().unwrap();
    assert_eq!(head.as_ptr(), buf.as_ptr());
    assert_eq!(head.len(), 4);
    assert_eq!(chunks.next_chunk(), Some(&b"\\n"[..]));
    let tail = chunks.next_chunk().unwrap();
    assert_eq!(tail.as_ptr(), buf[5..].as_ptr());
    assert_eq!(tail, b"tail");
    assert_eq!(chunks.next_chunk(), None);
}

#[test]
fn rest_of_a_call_gathered_in_memory() {
    let mut writer = BuildScriptWriter::errors_and_warnings();
    let mut out = b"before ".to_vec();
    writer.write_all(b"ab\ncd\r\n").append_to(&mut out);
    assert_eq!(out, b"before cargo::warning=ab\\ncd\\r");

    // What has been given out already is not given out again.
    let mut chunks = writer.write_all(b"ef\ngh\n");
    assert_eq!(chunks.next_chunk(), Some(&b"\\n"[..]));
    assert_eq!(chunks.next_chunk(), Some(&b"ef"[..]));
    let mut rest = Vec::new();
    chunks.append_to(&mut rest);
    assert_eq!(rest, b"\\ngh");
    assert_eq!(writer.finish(), Some(b'\n'));

    let mut writer = BuildScriptWriter::informational();
    let mut out = Vec::new();
    writer.write_all(b"ab\ncd\r\n").append_to(&mut out);
    writer.write_all(b"").append_to(&mut out);
    assert_eq!(out, b"ab\ncd\r\n");
}
