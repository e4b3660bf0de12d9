//! Whole records: what reaches the stream when a fresh writer is given a
//! record in one or several calls and is then finished, and what holds of it.

use crate::channel::ChannelKind;
use crate::escape::{
    escaped, is_special, lemma_escaped_concat, lemma_escaped_has_no_special, lemma_escaped_plain,
    lemma_escaped_single, LINE_FEED,
};
use crate::transducer::{
    ends_special, lemma_marker, lemma_write_twice, marker, write_output, ErrorAndWarnState,
};
use crate::writer::BuildScriptWriterInner;
use vstd::prelude::*;

verus! {

/// The writer `writer` after it has been given `calls`, one call each, in
/// their order.
pub open spec fn after_calls(
    writer: BuildScriptWriterInner,
    calls: Seq<Seq<u8>>,
) -> BuildScriptWriterInner
    decreases calls.len(),
{
    if calls.len() == 0 {
        writer
    } else {
        after_calls(writer, calls.drop_last()).after(calls.last())
    }
}

/// Everything that the calls `calls`, made in their order on `writer`, put on
/// the stream.
pub open spec fn written(writer: BuildScriptWriterInner, calls: Seq<Seq<u8>>) -> Seq<u8>
    decreases calls.len(),
{
    if calls.len() == 0 {
        Seq::empty()
    } else {
        written(writer, calls.drop_last()) + after_calls(writer, calls.drop_last()).output(
            calls.last(),
        )
    }
}

/// What a record leaves on the stream of the channel `kind`: a fresh writer
/// is given `calls` and is then finished.
pub open spec fn record_output(kind: ChannelKind, calls: Seq<Seq<u8>>) -> Seq<u8> {
    written(BuildScriptWriterInner::fresh(kind), calls) + after_calls(
        BuildScriptWriterInner::fresh(kind),
        calls,
    ).flushed()
}

/// The line that stands for the message `msg`: nothing for an empty message;
/// else the marker, the message without its last byte in escaped form, and the
/// last byte as it is.
pub open spec fn rendered(msg: Seq<u8>) -> Seq<u8> {
    if msg.len() == 0 {
        Seq::empty()
    } else {
        marker() + escaped(msg.drop_last()) + seq![msg.last()]
    }
}

/// No call of `calls` was given an empty input.
pub open spec fn all_nonempty(calls: Seq<Seq<u8>>) -> bool {
    forall|i: int| 0 <= i < calls.len() ==> (#[trigger] calls[i]).len() > 0
}

/// Whether a line of `stream` begins at `i`: at the start of the stream and
/// after each line feed.
pub open spec fn line_begins_at(stream: Seq<u8>, i: int) -> bool {
    0 <= i < stream.len() && (i == 0 || stream[i - 1] == LINE_FEED)
}

/// Whether the marker stands in `stream` at `i`.
pub open spec fn marker_at(stream: Seq<u8>, i: int) -> bool {
    0 <= i && i + marker().len() <= stream.len() && stream.subrange(i, i + marker().len())
        == marker()
}

/// Where the lines of `stream` that begin with the marker begin. These are the
/// lines that a reader takes for directives.
pub open spec fn directive_lines(stream: Seq<u8>) -> Set<int> {
    Set::new(|i: int| line_begins_at(stream, i) && marker_at(stream, i))
}

/// What a row of records leaves on the directive stream: the line of each
/// message, one after the other.
pub open spec fn stream_of(msgs: Seq<Seq<u8>>) -> Seq<u8>
    decreases msgs.len(),
{
    if msgs.len() == 0 {
        Seq::empty()
    } else {
        stream_of(msgs.drop_last()) + rendered(msgs.last())
    }
}

/// Every message of `msgs` ends in a line feed, as a formatter ends each
/// record.
pub open spec fn all_terminated(msgs: Seq<Seq<u8>>) -> bool {
    forall|i: int|
        0 <= i < msgs.len() ==> (#[trigger] msgs[i]).len() > 0 && msgs[i].last() == LINE_FEED
}

/// A writer stays on its channel, and after a call its state is the one that
/// the call's input gives.
proof fn lemma_after_calls(writer: BuildScriptWriterInner, calls: Seq<Seq<u8>>)
    ensures
        after_calls(writer, calls).channel() == writer.channel(),
        calls.len() > 0 ==> after_calls(writer, calls) == writer.after(calls.last()),
    decreases calls.len(),
{
    if calls.len() > 0 {
        lemma_after_calls(writer, calls.drop_last());
    }
}

/// Calls that were given non-empty inputs write what a single call with the
/// inputs joined writes, and leave the writer as that call would.
proof fn lemma_written_joined(calls: Seq<Seq<u8>>)
    requires
        calls.len() > 0,
        all_nonempty(calls),
    ensures
        written(BuildScriptWriterInner::fresh(ChannelKind::Directive), calls) == write_output(
            ErrorAndWarnState::Init,
            calls.flatten(),
        ),
        after_calls(BuildScriptWriterInner::fresh(ChannelKind::Directive), calls) == (
        BuildScriptWriterInner::ErrorsAndWarnings {
            state: ErrorAndWarnState::after(calls.flatten()),
        }),
        calls.flatten().len() > 0,
    decreases calls.len(),
{
    let fresh = BuildScriptWriterInner::fresh(ChannelKind::Directive);
    let front = calls.drop_last();
    calls.lemma_flatten_and_flatten_alt_are_equivalent();
    front.lemma_flatten_and_flatten_alt_are_equivalent();
    assert(calls.flatten() == front.flatten() + calls.last());
    assert(calls.last().len() > 0);
    lemma_after_calls(fresh, calls);
    if front.len() == 0 {
        assert(written(fresh, front) =~= Seq::<u8>::empty());
        assert(front.flatten() =~= Seq::<u8>::empty());
        assert(calls.flatten() =~= calls.last());
        assert(written(fresh, calls) =~= write_output(ErrorAndWarnState::Init, calls.last()));
    } else {
        assert(all_nonempty(front)) by {
            assert forall|i: int| 0 <= i < front.len() implies (#[trigger] front[i]).len() > 0 by {
                assert(front[i] == calls[i]);
            }
        }
        lemma_written_joined(front);
        lemma_write_twice(ErrorAndWarnState::Init, front.flatten(), calls.last());
    }
}

/// However a message is cut into non-empty pieces for the calls, the record
/// comes out on the directive channel as the one line that stands for the
/// message.
pub proof fn lemma_record_output_is_rendered(calls: Seq<Seq<u8>>)
    requires
        all_nonempty(calls),
    ensures
        record_output(ChannelKind::Directive, calls) == rendered(calls.flatten()),
{
    if calls.len() == 0 {
        assert(calls.flatten() =~= Seq::<u8>::empty());
        assert(record_output(ChannelKind::Directive, calls) =~= Seq::<u8>::empty());
    } else {
        lemma_written_joined(calls);
        let msg = calls.flatten();
        if ends_special(msg) {
            assert(record_output(ChannelKind::Directive, calls) =~= rendered(msg));
        } else {
            assert(msg =~= msg.drop_last() + seq![msg.last()]);
            lemma_escaped_concat(msg.drop_last(), seq![msg.last()]);
            lemma_escaped_single(msg.last());
            assert(record_output(ChannelKind::Directive, calls) =~= rendered(msg));
        }
    }
}

/// A message given in several non-empty pieces, one call each, leaves the same
/// bytes on the stream as the whole message given in one call.
pub proof fn lemma_chunk_invariance(chunks: Seq<Seq<u8>>)
    requires
        chunks.len() > 0,
        all_nonempty(chunks),
    ensures
        record_output(ChannelKind::Directive, chunks) == record_output(
            ChannelKind::Directive,
            seq![chunks.flatten()],
        ),
{
    let whole = seq![chunks.flatten()];
    lemma_written_joined(chunks);
    whole.lemma_flatten_one_element();
    assert(whole.first() == chunks.flatten());
    assert(all_nonempty(whole));
    lemma_record_output_is_rendered(chunks);
    lemma_record_output_is_rendered(whole);
}

/// On the plain channel a record comes out as it went in, whatever the calls
/// were given.
pub proof fn lemma_plain_channel_passes_through(calls: Seq<Seq<u8>>)
    ensures
        record_output(ChannelKind::Plain, calls) == calls.flatten(),
    decreases calls.len(),
{
    let fresh = BuildScriptWriterInner::fresh(ChannelKind::Plain);
    lemma_after_calls(fresh, calls);
    calls.lemma_flatten_and_flatten_alt_are_equivalent();
    if calls.len() == 0 {
        assert(record_output(ChannelKind::Plain, calls) =~= calls.flatten());
    } else {
        let front = calls.drop_last();
        lemma_plain_channel_passes_through(front);
        lemma_after_calls(fresh, front);
        front.lemma_flatten_and_flatten_alt_are_equivalent();
        assert(record_output(ChannelKind::Plain, front) =~= written(fresh, front));
        assert(record_output(ChannelKind::Plain, calls) =~= calls.flatten());
    }
}

/// What the calls of a record write on the directive channel begins with the
/// marker.
proof fn lemma_starts_with_marker(calls: Seq<Seq<u8>>)
    requires
        calls.len() > 0,
    ensures
        marker().is_prefix_of(
            written(BuildScriptWriterInner::fresh(ChannelKind::Directive), calls),
        ),
    decreases calls.len(),
{
    let fresh = BuildScriptWriterInner::fresh(ChannelKind::Directive);
    let front = calls.drop_last();
    if front.len() == 0 {
        assert(written(fresh, front) =~= Seq::<u8>::empty());
        assert(marker().is_prefix_of(written(fresh, calls)));
    } else {
        lemma_starts_with_marker(front);
        assert(marker().is_prefix_of(written(fresh, calls)));
    }
}

/// The marker is written once in a record on the directive channel: the
/// first call puts it in front of its input, and what any later call puts in
/// front of its own is never the marker. So the marker is the first thing that
/// the record leaves on the stream. A record without any call leaves nothing
/// there.
pub proof fn lemma_marker_once(calls: Seq<Seq<u8>>)
    ensures
        forall|i: int|
            0 <= i < calls.len() ==> ((#[trigger] after_calls(
                BuildScriptWriterInner::fresh(ChannelKind::Directive),
                calls.take(i),
            )).owed() == marker() <==> i == 0),
        calls.len() > 0 ==> marker().is_prefix_of(record_output(ChannelKind::Directive, calls)),
        calls.len() == 0 ==> record_output(ChannelKind::Directive, calls) == Seq::<u8>::empty(),
{
    let fresh = BuildScriptWriterInner::fresh(ChannelKind::Directive);
    lemma_marker();
    assert forall|i: int| 0 <= i < calls.len() implies ((#[trigger] after_calls(
        fresh,
        calls.take(i),
    )).owed() == marker() <==> i == 0) by {
        lemma_after_calls(fresh, calls.take(i));
    }
    if calls.len() > 0 {
        lemma_starts_with_marker(calls);
        assert(marker().is_prefix_of(record_output(ChannelKind::Directive, calls)));
    } else {
        assert(record_output(ChannelKind::Directive, calls) =~= Seq::<u8>::empty());
    }
}

/// The last byte of a message is written as it is, a line feed that ends the
/// record too, and no special byte is left anywhere before it: every line
/// break inside the message has been replaced by its escape.
pub proof fn lemma_terminal_line_break(msg: Seq<u8>)
    requires
        msg.len() > 0,
    ensures
        rendered(msg).last() == msg.last(),
        forall|i: int| 0 <= i < rendered(msg).len() - 1 ==> !is_special(#[trigger] rendered(msg)[i]),
{
    lemma_marker();
    lemma_escaped_has_no_special(msg.drop_last());
    let inner = escaped(msg.drop_last());
    assert forall|i: int| 0 <= i < rendered(msg).len() - 1 implies !is_special(
        #[trigger] rendered(msg)[i],
    ) by {
        if i < marker().len() {
            assert(rendered(msg)[i] == marker()[i]);
        } else {
            assert(rendered(msg)[i] == inner[i - marker().len()]);
        }
    }
}

/// A reader that goes through the stream line by line and looks for the marker
/// at the start of each line finds exactly one such line in what a record
/// left there: the one that begins the record.
pub proof fn lemma_one_directive_line(msg: Seq<u8>)
    requires
        msg.len() > 0,
    ensures
        directive_lines(rendered(msg)) == set![0int],
{
    let out = rendered(msg);
    lemma_marker();
    lemma_terminal_line_break(msg);
    assert(out.subrange(0, marker().len() as int) =~= marker());
    assert forall|i: int| directive_lines(out).contains(i) <==> i == 0 by {
        if line_begins_at(out, i) && i != 0 {
            assert(is_special(out[i - 1]));
        }
    }
    assert(directive_lines(out) =~= set![0int]);
}

/// The stream that records ending in a line feed leave is empty or ends in a
/// line feed itself.
proof fn lemma_stream_ends_in_line_feed(msgs: Seq<Seq<u8>>)
    requires
        all_terminated(msgs),
    ensures
        msgs.len() == 0 ==> stream_of(msgs).len() == 0,
        msgs.len() > 0 ==> stream_of(msgs).len() > 0 && stream_of(msgs).last() == LINE_FEED,
{
    if msgs.len() > 0 {
        lemma_terminal_line_break(msgs.last());
    }
}

/// A reader that goes through a stream of records line by line finds as many
/// lines that begin with the marker as there are records, however many line
/// breaks the messages held, as long as each message ends in a line feed.
pub proof fn lemma_one_directive_line_per_record(msgs: Seq<Seq<u8>>)
    requires
        all_terminated(msgs),
    ensures
        directive_lines(stream_of(msgs)).finite(),
        directive_lines(stream_of(msgs)).len() == msgs.len(),
    decreases msgs.len(),
{
    let whole = stream_of(msgs);
    if msgs.len() == 0 {
        assert(directive_lines(whole) =~= Set::<int>::empty());
    } else {
        let front = msgs.drop_last();
        assert(all_terminated(front)) by {
            assert forall|i: int| 0 <= i < front.len() implies (#[trigger] front[i]).len() > 0
                && front[i].last() == LINE_FEED by {
                assert(front[i] == msgs[i]);
            }
        }
        lemma_one_directive_line_per_record(front);
        lemma_stream_ends_in_line_feed(front);
        let before = stream_of(front);
        let line = rendered(msgs.last());
        let at = before.len() as int;
        lemma_marker();
        lemma_terminal_line_break(msgs.last());
        assert(line.subrange(0, marker().len() as int) =~= marker());
        assert(whole.subrange(at, at + marker().len()) =~= marker());
        assert forall|i: int| directive_lines(whole).contains(i) <==> (directive_lines(
            before,
        ).contains(i) || i == at) by {
            if directive_lines(before).contains(i) {
                assert(whole.subrange(i, i + marker().len()) =~= before.subrange(
                    i,
                    i + marker().len(),
                ));
            }
            if directive_lines(whole).contains(i) && i < at {
                // The marker cannot reach over the line feed that ends the
                // record before.
                if i + marker().len() > at {
                    assert(whole.subrange(i, i + marker().len())[at - 1 - i] == whole[at - 1]);
                    assert(is_special(marker()[at - 1 - i]));
                }
                assert(before.subrange(i, i + marker().len()) =~= whole.subrange(
                    i,
                    i + marker().len(),
                ));
            }
            if directive_lines(whole).contains(i) && i > at {
                // No line begins inside the line of a record.
                assert(whole[i - 1] == line[i - 1 - at]);
                assert(is_special(line[i - 1 - at]));
            }
        }
        assert(directive_lines(whole) =~= directive_lines(before).insert(at));
        assert(!directive_lines(before).contains(at));
    }
}

/// Bytes that are not special are never changed: an ordinary byte between two
/// runs stays itself, at its place between the escaped runs; and a message
/// whose bytes before the last are all ordinary is written as it is, behind
/// the marker.
pub proof fn lemma_plain_bytes_untouched(before: Seq<u8>, ch: u8, behind: Seq<u8>)
    requires
        !is_special(ch),
    ensures
        escaped(before + seq![ch] + behind) == escaped(before) + seq![ch] + escaped(behind),
        (forall|i: int| 0 <= i < before.len() ==> !is_special(#[trigger] before[i])) ==> rendered(
            before + seq![ch],
        ) == marker() + before + seq![ch],
{
    lemma_escaped_concat(before + seq![ch], behind);
    lemma_escaped_concat(before, seq![ch]);
    lemma_escaped_single(ch);
    if forall|i: int| 0 <= i < before.len() ==> !is_special(#[trigger] before[i]) {
        lemma_escaped_plain(before);
        assert((before + seq![ch]).drop_last() =~= before);
    }
}

} // verus!
