//! The writer itself. It keeps the state of one record and turns each write
//! call into the chunks that have to reach the stream.

use crate::channel::ChannelKind;
use crate::escape::{
    char_is_special, escape_of, escape_special, escaped, is_special, lemma_escaped_concat,
    lemma_escaped_plain, lemma_escaped_single,
};
use crate::transducer::{body, write_output, ErrorAndWarnState, MARKER};
use vstd::prelude::*;

verus! {

/// What a writer is at any moment: the channel it serves and, on the directive
/// channel, where it stands in its record.
#[derive(Clone, Copy, Debug, PartialEq, Eq)]
pub enum BuildScriptWriterInner {
    /// A writer for the plain channel. It has no state.
    Informational,
    /// A writer for the directive channel.
    ErrorsAndWarnings { state: ErrorAndWarnState },
}

impl BuildScriptWriterInner {
    /// A byte that is held back is a special byte.
    pub open spec fn wf(self) -> bool {
        self matches BuildScriptWriterInner::ErrorsAndWarnings { state } ==> state.wf()
    }

    /// A writer for the channel `kind` that has not been given anything yet.
    pub open spec fn fresh(kind: ChannelKind) -> BuildScriptWriterInner {
        match kind {
            ChannelKind::Plain => BuildScriptWriterInner::Informational,
            ChannelKind::Directive => BuildScriptWriterInner::ErrorsAndWarnings {
                state: ErrorAndWarnState::Init,
            },
        }
    }

    /// The channel that the writer serves.
    pub open spec fn channel(self) -> ChannelKind {
        match self {
            BuildScriptWriterInner::Informational => ChannelKind::Plain,
            BuildScriptWriterInner::ErrorsAndWarnings { .. } => ChannelKind::Directive,
        }
    }

    /// What a call with `buf` first puts on the stream, before anything of
    /// `buf`.
    pub open spec fn owed(self) -> Seq<u8> {
        match self {
            BuildScriptWriterInner::Informational => Seq::empty(),
            BuildScriptWriterInner::ErrorsAndWarnings { state } => state.owed(),
        }
    }

    /// The part of `buf` that a call with `buf` deals with itself.
    pub open spec fn taken(self, buf: Seq<u8>) -> Seq<u8> {
        match self {
            BuildScriptWriterInner::Informational => buf,
            BuildScriptWriterInner::ErrorsAndWarnings { .. } => body(buf),
        }
    }

    /// Everything that a call with `buf` puts on the stream: `buf` itself on
    /// the plain channel, what the transducer makes of it on the other.
    pub open spec fn output(self, buf: Seq<u8>) -> Seq<u8> {
        match self {
            BuildScriptWriterInner::Informational => buf,
            BuildScriptWriterInner::ErrorsAndWarnings { state } => write_output(state, buf),
        }
    }

    /// The writer after a call with `buf`.
    pub open spec fn after(self, buf: Seq<u8>) -> BuildScriptWriterInner {
        match self {
            BuildScriptWriterInner::Informational => BuildScriptWriterInner::Informational,
            BuildScriptWriterInner::ErrorsAndWarnings { .. } => {
                BuildScriptWriterInner::ErrorsAndWarnings { state: ErrorAndWarnState::after(buf) }
            },
        }
    }

    /// The byte that the writer holds back, if it holds one.
    pub open spec fn held_back(self) -> Option<u8> {
        match self {
            BuildScriptWriterInner::Informational => None,
            BuildScriptWriterInner::ErrorsAndWarnings { state } => state.held_back(),
        }
    }

    /// What is written when the writer is finished: the byte held back, as it
    /// is.
    pub open spec fn flushed(self) -> Seq<u8> {
        match self.held_back() {
            Some(ch) => seq![ch],
            None => Seq::empty(),
        }
    }
}

/// `n` bytes at the start of `s` are its longest stretch without a special
/// byte.
pub open spec fn plain_run(s: Seq<u8>, n: int) -> bool {
    &&& 0 <= n <= s.len()
    &&& forall|i: int| 0 <= i < n ==> !is_special(#[trigger] s[i])
    &&& n == s.len() || is_special(s[n])
}

/// Finds the first special byte of `buf`.
pub fn special_position(buf: &[u8]) -> (pos: Option<usize>)
    ensures
        pos matches Some(p) ==> p < buf@.len() && plain_run(buf@, p as int),
        pos is None ==> plain_run(buf@, buf@.len() as int),
{
    let mut i: usize = 0;
    while i < buf.len()
        invariant
            i <= buf@.len(),
            forall|j: int| 0 <= j < i ==> !is_special(#[trigger] buf@[j]),
        decreases buf@.len() - i,
    {
        if char_is_special(buf[i]) {
            return Some(i);
        }
        i += 1;
    }
    None
}

/// A writer for the output of a build script.
///
/// Records for the plain channel pass through unchanged. A record for the
/// directive channel gets the marker in front, its inner line breaks escaped,
/// and keeps the line break that ends it.
#[derive(Debug)]
pub struct BuildScriptWriter(BuildScriptWriterInner);

impl View for BuildScriptWriter {
    type V = BuildScriptWriterInner;

    closed spec fn view(&self) -> BuildScriptWriterInner {
        self.0
    }
}

impl BuildScriptWriter {
    #[verifier::type_invariant]
    spec fn inv(self) -> bool {
        self.0.wf()
    }

    /// Create a writer for informational events: one for the plain channel.
    pub fn informational() -> (writer: Self)
        ensures
            writer@ == BuildScriptWriterInner::Informational,
    {
        BuildScriptWriter(BuildScriptWriterInner::Informational)
    }

    /// Create a writer for warning and error events: one for the directive
    /// channel, at the start of its record.
    pub fn errors_and_warnings() -> (writer: Self)
        ensures
            writer@ == (BuildScriptWriterInner::ErrorsAndWarnings {
                state: ErrorAndWarnState::Init,
            }),
    {
        BuildScriptWriter(
            BuildScriptWriterInner::ErrorsAndWarnings { state: ErrorAndWarnState::Init },
        )
    }

    /// The channel that this writer serves.
    pub fn channel(&self) -> (kind: ChannelKind)
        ensures
            kind == self@.channel(),
    {
        match self.0 {
            BuildScriptWriterInner::Informational => ChannelKind::Plain,
            BuildScriptWriterInner::ErrorsAndWarnings { .. } => ChannelKind::Directive,
        }
    }

    /// Takes in all of `buf` as the next piece of the record and gives the
    /// chunks that have to be written to the stream for it, in their order.
    ///
    /// On the directive channel a special byte at the end of `buf` is not among
    /// them: it is held back until the next call or until the writer is
    /// finished.
    pub fn write_all<'a>(&mut self, buf: &'a [u8]) -> (chunks: Chunks<'a>)
        ensures
            final(self)@ == old(self)@.after(buf@),
            chunks.owed() == old(self)@.owed(),
            chunks.rest() == old(self)@.taken(buf@),
            chunks.escaping() == (old(self)@.channel() == ChannelKind::Directive),
            chunks.remaining() == old(self)@.output(buf@),
    {
        proof {
            use_type_invariant(&*self);
        }
        match self.0 {
            BuildScriptWriterInner::Informational => {
                Chunks { owed: ErrorAndWarnState::Normal, rest: buf, escaping: false }
            },
            BuildScriptWriterInner::ErrorsAndWarnings { state } => {
                let len = buf.len();
                if len > 0 && char_is_special(buf[len - 1]) {
                    self.0 = BuildScriptWriterInner::ErrorsAndWarnings {
                        state: ErrorAndWarnState::LastCharWasSpecial(buf[len - 1]),
                    };
                    Chunks { owed: state, rest: &buf[0..len - 1], escaping: true }
                } else {
                    self.0 = BuildScriptWriterInner::ErrorsAndWarnings {
                        state: ErrorAndWarnState::Normal,
                    };
                    Chunks { owed: state, rest: buf, escaping: true }
                }
            },
        }
    }

    /// Ends the record: gives the byte that was held back, if there is one. It
    /// has to be written to the stream as it is.
    pub fn finish(self) -> (held: Option<u8>)
        ensures
            held == self@.held_back(),
            held matches Some(ch) ==> is_special(ch),
    {
        proof {
            use_type_invariant(&self);
        }
        match self.0 {
            BuildScriptWriterInner::ErrorsAndWarnings {
                state: ErrorAndWarnState::LastCharWasSpecial(ch),
            } => Some(ch),
            _ => None,
        }
    }
}

/// What is left to write of one call.
#[derive(Debug)]
pub struct Chunks<'a> {
    owed: ErrorAndWarnState,
    rest: &'a [u8],
    escaping: bool,
}

impl<'a> Chunks<'a> {
    #[verifier::type_invariant]
    spec fn inv(self) -> bool {
        self.owed.wf()
    }

    /// What is written before anything else of the input: the marker, the
    /// escape of a byte held back by the call before, or nothing.
    pub closed spec fn owed(&self) -> Seq<u8> {
        self.owed.owed()
    }

    /// The bytes of the input that have not been dealt with yet.
    pub closed spec fn rest(&self) -> Seq<u8> {
        self.rest@
    }

    /// Whether special bytes are replaced by their escapes.
    pub closed spec fn escaping(&self) -> bool {
        self.escaping
    }

    /// All the bytes that are still to be given out.
    pub open spec fn remaining(&self) -> Seq<u8> {
        self.owed() + if self.escaping() {
            escaped(self.rest())
        } else {
            self.rest()
        }
    }

    /// Nothing differs between the two as far as a caller can tell.
    pub open spec fn same_as(&self, other: &Chunks) -> bool {
        &&& self.owed() == other.owed()
        &&& self.rest() == other.rest()
        &&& self.escaping() == other.escaping()
    }

    /// Whether `bytes` is the chunk that comes next, and `next` what is left
    /// once it has been given out.
    ///
    /// What is owed comes first, in one chunk. After that the input is given
    /// out piece by piece: the escape of a special byte where one stands at
    /// the front, else the longest stretch of ordinary bytes, as it stands in
    /// the input. Where nothing is escaped, the whole input is one chunk.
    pub open spec fn gives(&self, bytes: Seq<u8>, next: &Chunks) -> bool {
        &&& next.escaping() == self.escaping()
        &&& next.owed() == Seq::<u8>::empty()
        &&& if self.owed().len() > 0 {
            bytes == self.owed() && next.rest() == self.rest()
        } else if self.escaping() && is_special(self.rest()[0]) {
            bytes == escape_of(self.rest()[0]) && next.rest() == self.rest().skip(1)
        } else {
            &&& bytes == self.rest().take(bytes.len() as int)
            &&& next.rest() == self.rest().skip(bytes.len() as int)
            &&& if self.escaping() {
                plain_run(self.rest(), bytes.len() as int)
            } else {
                bytes.len() == self.rest().len()
            }
        }
    }

    /// Gives the next chunk to write, or `None` when nothing is left.
    ///
    /// The chunks of a call, written one after the other, are the call's
    /// output. None of them is empty.
    pub fn next_chunk(&mut self) -> (chunk: Option<&'a [u8]>)
        ensures
            chunk is None <==> old(self).remaining().len() == 0,
            chunk is None ==> final(self).same_as(old(self)),
            chunk matches Some(bytes) ==> old(self).gives(bytes@, final(self)),
            chunk matches Some(bytes) ==> bytes@.len() > 0 && old(self).remaining() == bytes@
                + final(self).remaining(),
    {
        proof {
            use_type_invariant(&*self);
        }
        match self.owed {
            ErrorAndWarnState::Init => {
                self.owed = ErrorAndWarnState::Normal;
                let m: &'static [u8; 15] = &MARKER;
                return Some(m.as_slice());
            },
            ErrorAndWarnState::LastCharWasSpecial(ch) => {
                self.owed = ErrorAndWarnState::Normal;
                return Some(escape_special(ch));
            },
            ErrorAndWarnState::Normal => {},
        }
        let rest = self.rest;
        let len = rest.len();
        if len == 0 {
            proof {
                assert(escaped(rest@) =~= Seq::<u8>::empty());
            }
            return None;
        }
        let cut = if self.escaping {
            match special_position(rest) {
                Some(pos) => pos,
                None => len,
            }
        } else {
            len
        };
        if cut == 0 {
            let ch = rest[0];
            self.rest = &rest[1..len];
            proof {
                assert(rest@ =~= seq![ch] + rest@.skip(1));
                lemma_escaped_concat(seq![ch], rest@.skip(1));
                lemma_escaped_single(ch);
                assert(rest@.subrange(1, len as int) =~= rest@.skip(1));
            }
            Some(escape_special(ch))
        } else {
            let run = &rest[0..cut];
            self.rest = &rest[cut..len];
            proof {
                assert(rest@.subrange(0, cut as int) =~= rest@.take(cut as int));
                assert(rest@.subrange(cut as int, len as int) =~= rest@.skip(cut as int));
                assert(rest@ =~= run@ + rest@.skip(cut as int));
                if self.escaping {
                    lemma_escaped_concat(run@, rest@.skip(cut as int));
                    lemma_escaped_plain(run@);
                }
            }
            Some(run)
        }
    }

    /// Gives out everything that is left and appends it to `out`, for a
    /// caller that gathers the output in memory.
    pub fn append_to(self, out: &mut Vec<u8>)
        ensures
            final(out)@ == old(out)@ + self.remaining(),
    {
        let ghost total = out@ + self.remaining();
        let mut chunks = self;
        loop
            invariant
                out@ + chunks.remaining() == total,
            ensures
                out@ == total,
            decreases chunks.remaining().len(),
        {
            let ghost before = out@;
            match chunks.next_chunk() {
                Some(chunk) => {
                    out.extend_from_slice(chunk);
                    assert(out@ =~= before + chunk@);
                    assert(out@ + chunks.remaining() =~= total);
                },
                None => {
                    assert(out@ =~= total);
                    break;
                },
            }
        }
    }
}

} // verus!
