//! What one write call on the directive channel puts on the stream, as a
//! function of the writer's state and of the bytes handed to the call.
//!
//! Whether a line break at the end of a call ends the record or only happens
//! to stand at the end of this piece cannot be known during the call. So a
//! special byte at the end is held back. The next call shows that it stood
//! inside the record and writes its escape; if no call follows, it is written
//! as it is when the writer is finished.

use crate::escape::{escape_of, escaped, is_special, lemma_escaped_concat, lemma_escaped_single};
use vstd::prelude::*;

verus! {

/// The token that makes `cargo` read a line as a warning: `cargo::warning=`.
pub const MARKER: [u8; 15] = [
    0x63, 0x61, 0x72, 0x67, 0x6f, 0x3a, 0x3a, 0x77, 0x61, 0x72, 0x6e, 0x69, 0x6e, 0x67, 0x3d,
];

/// The marker as a sequence of bytes.
pub open spec fn marker() -> Seq<u8> {
    MARKER@
}

/// Where a writer for the directive channel stands between two calls.
#[derive(Clone, Copy, Debug, PartialEq, Eq)]
pub enum ErrorAndWarnState {
    /// Nothing has been written yet; the marker is still to come.
    Init,
    /// The marker has been written and no byte is held back.
    Normal,
    /// The marker has been written and the last byte taken in, a special byte,
    /// is held back.
    LastCharWasSpecial(u8),
}

impl ErrorAndWarnState {
    /// A byte that is held back is a special byte.
    pub open spec fn wf(self) -> bool {
        self matches ErrorAndWarnState::LastCharWasSpecial(ch) ==> is_special(ch)
    }

    /// What a call made in this state writes before anything of its own
    /// input: the marker at the start of the record, or the escape of the byte
    /// that the call before it held back.
    pub open spec fn owed(self) -> Seq<u8> {
        match self {
            ErrorAndWarnState::Init => marker(),
            ErrorAndWarnState::Normal => Seq::empty(),
            ErrorAndWarnState::LastCharWasSpecial(ch) => escape_of(ch),
        }
    }

    /// The state in which a call that was given `buf` leaves the writer.
    pub open spec fn after(buf: Seq<u8>) -> ErrorAndWarnState {
        if ends_special(buf) {
            ErrorAndWarnState::LastCharWasSpecial(buf.last())
        } else {
            ErrorAndWarnState::Normal
        }
    }

    /// The byte that is held back in this state, if there is one.
    pub open spec fn held_back(self) -> Option<u8> {
        match self {
            ErrorAndWarnState::LastCharWasSpecial(ch) => Some(ch),
            _ => None,
        }
    }

    /// What is written when a writer in this state is finished: the byte held
    /// back, as it is.
    pub open spec fn flushed(self) -> Seq<u8> {
        match self.held_back() {
            Some(ch) => seq![ch],
            None => Seq::empty(),
        }
    }
}

/// Whether the last byte of `buf` is a special byte.
pub open spec fn ends_special(buf: Seq<u8>) -> bool {
    buf.len() > 0 && is_special(buf.last())
}

/// The part of `buf` that its own call deals with: all of it but a special
/// byte at the end.
pub open spec fn body(buf: Seq<u8>) -> Seq<u8> {
    if ends_special(buf) {
        buf.drop_last()
    } else {
        buf
    }
}

/// Everything that a call with `buf` writes when the writer is in `state`.
pub open spec fn write_output(state: ErrorAndWarnState, buf: Seq<u8>) -> Seq<u8> {
    state.owed() + escaped(body(buf))
}

/// The marker is fifteen bytes long and holds no special byte.
pub proof fn lemma_marker()
    ensures
        marker().len() == 15,
        forall|i: int| 0 <= i < marker().len() ==> !is_special(#[trigger] marker()[i]),
{
}

/// A call accounts for every byte it was given: each byte is either dealt
/// with by the call itself or held back, and they stand in their order.
pub proof fn lemma_input_accounted(buf: Seq<u8>)
    ensures
        body(buf) + ErrorAndWarnState::after(buf).flushed() == buf,
{
    assert(body(buf) + ErrorAndWarnState::after(buf).flushed() =~= buf);
}

/// Two calls in a row write what one call with both inputs joined would have
/// written, and leave the writer in the same state, as long as the second
/// input is not empty.
pub proof fn lemma_write_twice(state: ErrorAndWarnState, a: Seq<u8>, b: Seq<u8>)
    requires
        b.len() > 0,
    ensures
        write_output(state, a) + write_output(ErrorAndWarnState::after(a), b) == write_output(
            state,
            a + b,
        ),
        ErrorAndWarnState::after(a + b) == ErrorAndWarnState::after(b),
{
    assert((a + b).last() == b.last());
    assert(body(a + b) =~= a + body(b));
    lemma_escaped_concat(a, body(b));
    // What the first call holds back is what the second one owes.
    assert(escaped(a) == escaped(body(a)) + ErrorAndWarnState::after(a).owed()) by {
        if ends_special(a) {
            assert(a =~= a.drop_last() + seq![a.last()]);
            lemma_escaped_concat(a.drop_last(), seq![a.last()]);
            lemma_escaped_single(a.last());
        } else {
            assert(escaped(a) =~= escaped(a) + Seq::<u8>::empty());
        }
    }
    assert(write_output(state, a) + write_output(ErrorAndWarnState::after(a), b) =~= write_output(
        state,
        a + b,
    ));
}

} // verus!
