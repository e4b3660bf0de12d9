//! The escape policy: which bytes would break a line, and what is written in
//! their place.

use vstd::prelude::*;

verus! {

/// The line feed byte.
pub const LINE_FEED: u8 = 0x0a;

/// The carriage return byte.
pub const CARRIAGE_RETURN: u8 = 0x0d;

/// What is written for a line feed: a backslash and the letter `n`.
pub const ESCAPED_LINE_FEED: [u8; 2] = [0x5c, 0x6e];

/// What is written for a carriage return: a backslash and the letter `r`.
pub const ESCAPED_CARRIAGE_RETURN: [u8; 2] = [0x5c, 0x72];

/// A byte is special when it is a line feed or a carriage return. These are
/// the only bytes at which a reader could cut a record into several lines.
pub open spec fn is_special(ch: u8) -> bool {
    ch == LINE_FEED || ch == CARRIAGE_RETURN
}

/// The two bytes written in place of the special byte `ch`.
pub open spec fn escape_of(ch: u8) -> Seq<u8>
    recommends
        is_special(ch),
{
    if ch == LINE_FEED {
        seq![0x5cu8, 0x6eu8]
    } else {
        seq![0x5cu8, 0x72u8]
    }
}

/// What one byte becomes inside a record: its escape if it is special, else
/// the byte itself.
pub open spec fn escaped_byte(ch: u8) -> Seq<u8> {
    if is_special(ch) {
        escape_of(ch)
    } else {
        seq![ch]
    }
}

/// What a run of bytes becomes inside a record: the bytes in their order, each
/// special one replaced by its escape.
pub open spec fn escaped(s: Seq<u8>) -> Seq<u8>
    decreases s.len(),
{
    if s.len() == 0 {
        Seq::empty()
    } else {
        escaped(s.drop_last()) + escaped_byte(s.last())
    }
}

/// Says whether `ch` is a special byte.
pub fn char_is_special(ch: u8) -> (special: bool)
    ensures
        special == is_special(ch),
{
    ch == LINE_FEED || ch == CARRIAGE_RETURN
}

/// Gives the escape of the special byte `ch`.
pub fn escape_special(ch: u8) -> (escape: &'static [u8])
    requires
        is_special(ch),
    ensures
        escape@ == escape_of(ch),
{
    if ch == LINE_FEED {
        let escape: &'static [u8; 2] = &ESCAPED_LINE_FEED;
        escape.as_slice()
    } else {
        let escape: &'static [u8; 2] = &ESCAPED_CARRIAGE_RETURN;
        escape.as_slice()
    }
}

/// Escaping goes byte by byte, so it can be done on the parts of a run
/// separately.
pub proof fn lemma_escaped_concat(a: Seq<u8>, b: Seq<u8>)
    ensures
        escaped(a + b) == escaped(a) + escaped(b),
    decreases b.len(),
{
    if b.len() == 0 {
        assert(a + b =~= a);
        assert(escaped(a) + escaped(b) =~= escaped(a));
    } else {
        assert((a + b).drop_last() =~= a + b.drop_last());
        assert((a + b).last() == b.last());
        lemma_escaped_concat(a, b.drop_last());
        assert(escaped(a + b) =~= escaped(a) + escaped(b));
    }
}

/// Escaping one byte gives that byte's image.
pub proof fn lemma_escaped_single(ch: u8)
    ensures
        escaped(seq![ch]) == escaped_byte(ch),
{
    assert(seq![ch].drop_last() =~= Seq::<u8>::empty());
    assert(escaped(Seq::<u8>::empty()) =~= Seq::<u8>::empty());
    assert(escaped(seq![ch]) =~= escaped_byte(ch));
}

/// A run without special bytes is left exactly as it is.
pub proof fn lemma_escaped_plain(s: Seq<u8>)
    requires
        forall|i: int| 0 <= i < s.len() ==> !is_special(#[trigger] s[i]),
    ensures
        escaped(s) == s,
    decreases s.len(),
{
    if s.len() > 0 {
        lemma_escaped_plain(s.drop_last());
        assert(escaped(s) =~= s);
    }
}

/// No special byte is left in an escaped run.
pub proof fn lemma_escaped_has_no_special(s: Seq<u8>)
    ensures
        forall|i: int| 0 <= i < escaped(s).len() ==> !is_special(#[trigger] escaped(s)[i]),
    decreases s.len(),
{
    if s.len() > 0 {
        lemma_escaped_has_no_special(s.drop_last());
        let head = escaped(s.drop_last());
        assert forall|i: int| 0 <= i < escaped(s).len() implies !is_special(
            #[trigger] escaped(s)[i],
        ) by {
            if i < head.len() {
                assert(escaped(s)[i] == head[i]);
            } else {
                assert(escaped(s)[i] == escaped_byte(s.last())[i - head.len()]);
            }
        }
    }
}

} // verus!
