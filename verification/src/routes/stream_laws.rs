//! What holds of every stream: how it is cut does not matter, it is framed by one
//! start and one end, its blocks are closed, and nothing that it says is lost.

use vstd::prelude::*;
use vstd::string::*;
use vstd::utf8::{decode_utf8, encode_utf8, valid_utf8};

use crate::json::{json_parse, json_text, Tree};
use crate::routes::stream::{
    block_delta, block_start, block_stop, call_delta, call_events, call_index, call_start,
    calls_events, calls_open, choice_opens, choice_progress, choices_progress, chunk_choices,
    data_progress, done_events, event_views, finish_events, first_break, frame_text, fresh,
    is_end_mark, lemma_first_break, lines_marked, lines_progress, listed_calls_open, message_delta,
    opened_by_call, reason_event, said_events, start_event, stop_event, stop_of, text_block_start,
    text_delta, text_events, text_marked, text_opens, text_progress, text_rest, usage_events,
    with_open, Event, Progress, Standing, StreamEvent, StreamTranslator,
};
use crate::seqs::{
    lemma_filter_map_add, lemma_filter_map_empty, lemma_filter_map_one, lemma_flat_map_add,
    lemma_flat_map_all, lemma_flat_map_one, lemma_flat_map_then_filter_map,
};
use crate::text::{lines, lines_after, starts_with, trim, trim_end, trim_start};

verus! {

// ---------------------------------------------------------------------------
// How a stream is cut
// ---------------------------------------------------------------------------

/// A complete block of a text stays its first block, whatever follows.
proof fn lemma_first_break_add(a: Seq<char>, b: Seq<char>)
    requires
        first_break(a) is Some,
    ensures
        first_break(a + b) == first_break(a),
    decreases a.len(),
{
    if !(a[0] == '\n' && a[1] == '\n') {
        assert((a + b).drop_first() =~= a.drop_first() + b);
        lemma_first_break_add(a.drop_first(), b);
    }
}

/// What is left of a text holds no complete block.
pub proof fn law_rest_is_incomplete(text: Seq<char>)
    ensures
        first_break(text_rest(text)) is None,
    decreases text.len(),
{
    lemma_first_break(text);
    match first_break(text) {
        Some(at) => law_rest_is_incomplete(text.skip(at + 2)),
        None => {},
    }
}

/// A text may be cut anywhere: its first part, and then what that leaves
/// together with its second part, come to what the whole comes to.
pub proof fn law_cut_anywhere(now: Standing, a: Seq<char>, b: Seq<char>)
    ensures
        text_progress(now, a + b) == text_progress(now, a).then_events(
            text_progress(text_progress(now, a).now, text_rest(a) + b),
        ),
        text_marked(a + b) == (text_marked(a) || text_marked(text_rest(a) + b)),
        text_rest(a + b) == text_rest(text_rest(a) + b),
    decreases a.len(),
{
    lemma_first_break(a);
    match first_break(a) {
        Some(at) => {
            lemma_first_break_add(a, b);
            let said = lines_progress(now, lines(a.take(at)));
            let rest = a.skip(at + 2);
            assert((a + b).take(at) =~= a.take(at));
            assert((a + b).skip(at + 2) =~= rest + b);
            law_cut_anywhere(said.now, rest, b);
            let then = text_progress(text_progress(said.now, rest).now, text_rest(rest) + b);
            assert(said.events + (text_progress(said.now, rest).events + then.events) =~= (
            said.events + text_progress(said.now, rest).events) + then.events);
        },
        None => {
            let whole = text_progress(now, a + b);
            assert(Seq::<Event>::empty() + whole.events =~= whole.events);
        },
    }
}

/// What is left when a stream has come in by these pieces.
pub open spec fn pieces_rest(pieces: Seq<Seq<char>>) -> Seq<char>
    decreases pieces.len(),
{
    if pieces.len() == 0 {
        seq![]
    } else {
        text_rest(pieces_rest(pieces.drop_last()) + pieces.last())
    }
}

/// The end mark has come when a stream has come in by these pieces.
pub open spec fn pieces_marked(pieces: Seq<Seq<char>>) -> bool
    decreases pieces.len(),
{
    pieces.len() > 0 && (pieces_marked(pieces.drop_last()) || text_marked(
        pieces_rest(pieces.drop_last()) + pieces.last(),
    ))
}

/// What a stream comes to when it comes in by these pieces.
pub open spec fn pieces_progress(pieces: Seq<Seq<char>>) -> Progress
    decreases pieces.len(),
{
    if pieces.len() == 0 {
        Progress { now: fresh(), events: seq![] }
    } else {
        let before = pieces_progress(pieces.drop_last());
        before.then_events(
            text_progress(before.now, pieces_rest(pieces.drop_last()) + pieces.last()),
        )
    }
}

/// How a stream is cut into pieces does not matter: what comes out is what the
/// whole text comes to.
pub proof fn law_pieces_do_not_matter(pieces: Seq<Seq<char>>)
    ensures
        pieces_progress(pieces) == text_progress(fresh(), pieces.flatten()),
        pieces_marked(pieces) == text_marked(pieces.flatten()),
        pieces_rest(pieces) == text_rest(pieces.flatten()),
    decreases pieces.len(),
{
    if pieces.len() > 0 {
        let earlier = pieces.drop_last();
        law_pieces_do_not_matter(earlier);
        earlier.lemma_flatten_push(pieces.last());
        assert(earlier.push(pieces.last()) =~= pieces);
        law_cut_anywhere(fresh(), earlier.flatten(), pieces.last());
    }
}

/// The texts of a list of chunks.
pub open spec fn chunk_texts(chunks: Seq<Seq<u8>>) -> Seq<Seq<char>> {
    chunks.map_values(|chunk: Seq<u8>| decode_utf8(chunk))
}

/// Two texts in a row are encoded in a row.
proof fn lemma_encode_add(a: Seq<char>, b: Seq<char>)
    ensures
        encode_utf8(a + b) == encode_utf8(a) + encode_utf8(b),
    decreases a.len(),
{
    if a.len() == 0 {
        assert(a + b =~= b);
        assert(encode_utf8(a) + encode_utf8(b) =~= encode_utf8(b));
    } else {
        assert((a + b).drop_first() =~= a.drop_first() + b);
        lemma_encode_add(a.drop_first(), b);
        assert(encode_utf8(a + b) =~= encode_utf8(a) + encode_utf8(b));
    }
}

/// Two encoded texts in a row are decoded in a row.
proof fn lemma_decode_add(a: Seq<u8>, b: Seq<u8>)
    requires
        valid_utf8(a),
        valid_utf8(b),
    ensures
        valid_utf8(a + b),
        decode_utf8(a + b) == decode_utf8(a) + decode_utf8(b),
{
    let texts = decode_utf8(a) + decode_utf8(b);
    vstd::utf8::valid_utf8_concat(a, b);
    vstd::utf8::decode_utf8_encode_utf8(a);
    vstd::utf8::decode_utf8_encode_utf8(b);
    lemma_encode_add(decode_utf8(a), decode_utf8(b));
    vstd::utf8::encode_utf8_decode_utf8(texts);
}

/// How the bytes of a stream are cut into chunks does not matter, where each
/// chunk is UTF-8 on its own: the events are those of the text that the bytes
/// encode. A chunk that ends within a character is decoded with replacement
/// characters, so it is left out here.
pub proof fn law_chunks_do_not_matter(chunks: Seq<Seq<u8>>)
    requires
        forall|i: int| 0 <= i < chunks.len() ==> valid_utf8(#[trigger] chunks[i]),
    ensures
        valid_utf8(chunks.flatten()),
        pieces_progress(chunk_texts(chunks)) == text_progress(
            fresh(),
            decode_utf8(chunks.flatten()),
        ),
        pieces_marked(chunk_texts(chunks)) == text_marked(decode_utf8(chunks.flatten())),
        pieces_rest(chunk_texts(chunks)) == text_rest(decode_utf8(chunks.flatten())),
{
    lemma_chunk_texts(chunks);
    law_pieces_do_not_matter(chunk_texts(chunks));
}

proof fn lemma_chunk_texts(chunks: Seq<Seq<u8>>)
    requires
        forall|i: int| 0 <= i < chunks.len() ==> valid_utf8(#[trigger] chunks[i]),
    ensures
        valid_utf8(chunks.flatten()),
        chunk_texts(chunks).flatten() == decode_utf8(chunks.flatten()),
    decreases chunks.len(),
{
    if chunks.len() > 0 {
        let earlier = chunks.drop_last();
        assert forall|i: int| 0 <= i < earlier.len() implies valid_utf8(#[trigger] earlier[i]) by {
            assert(earlier[i] == chunks[i]);
        }
        lemma_chunk_texts(earlier);
        earlier.lemma_flatten_push(chunks.last());
        assert(earlier.push(chunks.last()) =~= chunks);
        chunk_texts(earlier).lemma_flatten_push(decode_utf8(chunks.last()));
        assert(chunk_texts(earlier).push(decode_utf8(chunks.last())) =~= chunk_texts(chunks));
        assert(valid_utf8(chunks[chunks.len() - 1]));
        lemma_decode_add(earlier.flatten(), chunks.last());
    }
}

// ---------------------------------------------------------------------------
// The frame of a stream
// ---------------------------------------------------------------------------

/// All events of a stream: its start, what its text tells, and its end, where
/// the end mark has not told that.
pub open spec fn stream_events(id: Seq<char>, model: Seq<char>, text: Seq<char>) -> Seq<Event> {
    seq![start_event(id, model)] + text_progress(fresh(), text).events + if text_marked(text) {
        seq![]
    } else {
        seq![stop_event()]
    }
}

/// A new translator has taken in these pieces one after the other, and each time
/// those events came out.
pub open spec fn is_fed(
    states: Seq<StreamTranslator>,
    pieces: Seq<Seq<char>>,
    told: Seq<Seq<Event>>,
) -> bool {
    &&& states.len() == pieces.len() + 1
    &&& told.len() == pieces.len()
    &&& states[0].is_fresh()
    &&& forall|i: int|
        0 <= i < pieces.len() ==> states[i + 1].takes_in(states[i], #[trigger] pieces[i], told[i])
}

proof fn lemma_fed(
    states: Seq<StreamTranslator>,
    pieces: Seq<Seq<char>>,
    told: Seq<Seq<Event>>,
)
    requires
        is_fed(states, pieces, told),
    ensures
        told.flatten() == pieces_progress(pieces).events,
        states.last().blocks@ == pieces_progress(pieces).now,
        states.last().done == pieces_marked(pieces),
        states.last().buffer@ == pieces_rest(pieces),
    decreases pieces.len(),
{
    if pieces.len() == 0 {
        assert(told.flatten() =~= seq![]);
    } else {
        let last = pieces.len() - 1;
        let earlier = states.drop_last();
        assert forall|i: int| 0 <= i < last implies earlier[i + 1].takes_in(
            earlier[i],
            #[trigger] pieces.drop_last()[i],
            told.drop_last()[i],
        ) by {
            assert(pieces.drop_last()[i] == pieces[i]);
        }
        lemma_fed(earlier, pieces.drop_last(), told.drop_last());
        assert(states[last + 1].takes_in(states[last], pieces[last], told[last]));
        told.drop_last().lemma_flatten_push(told.last());
        assert(told.drop_last().push(told.last()) =~= told);
    }
}

/// A translator tells the stream, however it is cut: what comes out of it, from
/// its start over all that it takes in to its end, are the events of the whole
/// text.
pub proof fn law_translator_tells_the_stream(
    states: Seq<StreamTranslator>,
    pieces: Seq<Seq<char>>,
    told: Seq<Seq<Event>>,
)
    requires
        is_fed(states, pieces, told),
    ensures
        seq![start_event(states[0].id@, states[0].model@)] + told.flatten()
            + if states.last().done {
            seq![]
        } else {
            seq![stop_event()]
        } == stream_events(states[0].id@, states[0].model@, pieces.flatten()),
{
    lemma_fed(states, pieces, told);
    law_pieces_do_not_matter(pieces);
}

/// Nothing is told behind the block with the end mark, where one comes.
pub open spec fn mark_is_last(now: Standing, text: Seq<char>) -> bool
    decreases text.len(),
    via mark_is_last_decreases
{
    match first_break(text) {
        Some(at) => {
            let list = lines(text.take(at));
            let said = lines_progress(now, list);
            if lines_marked(list) {
                text_progress(said.now, text.skip(at + 2)).events.len() == 0
            } else {
                mark_is_last(said.now, text.skip(at + 2))
            }
        },
        None => true,
    }
}

#[via_fn]
proof fn mark_is_last_decreases(now: Standing, text: Seq<char>) {
    lemma_first_break(text);
}

/// The event neither starts nor ends a message.
pub open spec fn is_inner() -> spec_fn(Event) -> bool {
    |event: Event| event.name != "message_start"@ && event.name != "message_stop"@
}

/// None of the events starts or ends a message.
pub open spec fn are_inner(events: Seq<Event>) -> bool {
    forall|i: int| 0 <= i < events.len() ==> is_inner()(#[trigger] events[i])
}

proof fn lemma_inner_names()
    ensures
        "content_block_start"@ != "message_start"@,
        "content_block_start"@ != "message_stop"@,
        "content_block_delta"@ != "message_start"@,
        "content_block_delta"@ != "message_stop"@,
        "content_block_stop"@ != "message_start"@,
        "content_block_stop"@ != "message_stop"@,
        "message_delta"@ != "message_start"@,
        "message_delta"@ != "message_stop"@,
        "message_start"@ != "message_stop"@,
{
    reveal_strlit("content_block_start");
    reveal_strlit("content_block_delta");
    reveal_strlit("content_block_stop");
    reveal_strlit("message_start");
    reveal_strlit("message_delta");
    reveal_strlit("message_stop");
    assert("content_block_start"@.len() == 19);
    assert("content_block_delta"@.len() == 19);
    assert("content_block_stop"@.len() == 18);
    assert("message_start"@.len() == 13);
    assert("message_delta"@.len() == 13);
    assert("message_stop"@.len() == 12);
    assert("message_delta"@[8] != "message_start"@[8]);
}

proof fn lemma_inner_add(a: Seq<Event>, b: Seq<Event>)
    requires
        are_inner(a),
        are_inner(b),
    ensures
        are_inner(a + b),
{
}

proof fn lemma_choice_inner(now: Standing, choice: Tree)
    ensures
        are_inner(choice_progress(now, choice).events),
{
    lemma_inner_names();
    let delta = choice.at("delta"@);
    let texts = text_events(now.text, delta.at("content"@));
    let calls = calls_events(delta.at("tool_calls"@));
    match delta.at("tool_calls"@).as_array() {
        Some(list) => lemma_flat_map_all(list, call_events(), is_inner()),
        None => {},
    }
    lemma_inner_add(texts, calls);
    let finish = finish_events(choice_opens(now.open, choice), choice.at("finish_reason"@));
    lemma_inner_add(texts + calls, finish);
}

proof fn lemma_choices_inner(now: Standing, choices: Seq<Tree>)
    ensures
        are_inner(choices_progress(now, choices).events),
    decreases choices.len(),
{
    if choices.len() > 0 {
        let before = choices_progress(now, choices.drop_last());
        lemma_choices_inner(now, choices.drop_last());
        lemma_choice_inner(before.now, choices.last());
        lemma_inner_add(before.events, choice_progress(before.now, choices.last()).events);
    }
}

proof fn lemma_data_inner(now: Standing, data: Seq<char>)
    ensures
        are_inner(data_progress(now, data).events),
{
    lemma_inner_names();
    match json_parse(data) {
        Some(chunk) => {
            lemma_choices_inner(now, chunk_choices(chunk));
            lemma_inner_add(
                choices_progress(now, chunk_choices(chunk)).events,
                usage_events(chunk),
            );
        },
        None => {},
    }
}

/// The events end a message with the last, or not at all.
pub open spec fn are_framed(events: Seq<Event>, ended: bool) -> bool {
    if ended {
        &&& events.len() > 0
        &&& events.last() == stop_event()
        &&& are_inner(events.drop_last())
    } else {
        are_inner(events)
    }
}

proof fn lemma_framed_add(a: Seq<Event>, b: Seq<Event>, ended: bool)
    requires
        are_inner(a),
        are_framed(b, ended),
    ensures
        are_framed(a + b, ended),
{
    if ended {
        assert((a + b).drop_last() =~= a + b.drop_last());
        lemma_inner_add(a, b.drop_last());
    } else {
        lemma_inner_add(a, b);
    }
}

proof fn lemma_lines_framed(now: Standing, list: Seq<Seq<char>>)
    ensures
        are_framed(lines_progress(now, list).events, lines_marked(list)),
    decreases list.len(),
{
    lemma_inner_names();
    if list.len() > 0 {
        let rest = list.drop_first();
        if starts_with(list[0], "data: "@) && is_end_mark(list[0]) {
            assert(lines_marked(list));
            assert(done_events().drop_last() =~= seq![reason_event("end_turn"@)]);
        } else {
            assert(lines_marked(list) == lines_marked(rest)) by {
                if lines_marked(list) {
                    let i = choose|i: int| 0 <= i < list.len() && is_end_mark(#[trigger] list[i]);
                    assert(rest[i - 1] == list[i]);
                }
                if lines_marked(rest) {
                    let i = choose|i: int| 0 <= i < rest.len() && is_end_mark(#[trigger] rest[i]);
                    assert(list[i + 1] == rest[i]);
                }
            }
            if !starts_with(list[0], "data: "@) {
                lemma_lines_framed(now, rest);
            } else {
                let said = data_progress(now, list[0].skip(6));
                lemma_data_inner(now, list[0].skip(6));
                lemma_lines_framed(said.now, rest);
                lemma_framed_add(
                    said.events,
                    lines_progress(said.now, rest).events,
                    lines_marked(rest),
                );
            }
        }
    }
}

proof fn lemma_text_framed(now: Standing, text: Seq<char>)
    requires
        mark_is_last(now, text),
    ensures
        are_framed(text_progress(now, text).events, text_marked(text)),
    decreases text.len(),
{
    lemma_first_break(text);
    match first_break(text) {
        Some(at) => {
            let list = lines(text.take(at));
            let rest = text.skip(at + 2);
            let said = lines_progress(now, list);
            lemma_lines_framed(now, list);
            if lines_marked(list) {
                assert(said.events + text_progress(said.now, rest).events =~= said.events);
            } else {
                lemma_text_framed(said.now, rest);
                lemma_framed_add(
                    said.events,
                    text_progress(said.now, rest).events,
                    text_marked(rest),
                );
            }
        },
        None => {},
    }
}

/// A stream is one message: its first event is the only one that starts a
/// message, and its last the only one that ends one, with or without an end
/// mark. (A stream that tells more behind its end mark is left out.)
pub proof fn law_stream_is_one_message(id: Seq<char>, model: Seq<char>, text: Seq<char>)
    requires
        mark_is_last(fresh(), text),
    ensures
        stream_events(id, model, text).len() >= 2,
        stream_events(id, model, text)[0] == start_event(id, model),
        stream_events(id, model, text).last() == stop_event(),
        forall|i: int|
            0 < i < stream_events(id, model, text).len() - 1 ==> is_inner()(
                #[trigger] stream_events(id, model, text)[i],
            ),
{
    lemma_inner_names();
    lemma_text_framed(fresh(), text);
    let told = text_progress(fresh(), text).events;
    let all = stream_events(id, model, text);
    assert forall|i: int| 0 < i < all.len() - 1 implies is_inner()(#[trigger] all[i]) by {
        assert(all[i] == told[i - 1]);
        if text_marked(text) {
            assert(told.drop_last()[i - 1] == told[i - 1]);
        }
    }
}

// ---------------------------------------------------------------------------
// What a stream says
// ---------------------------------------------------------------------------

/// The choices in the data of a line, where it is the text of a chunk.
pub open spec fn data_choices(data: Seq<char>) -> Seq<Tree> {
    match json_parse(data) {
        Some(chunk) => chunk_choices(chunk),
        None => seq![],
    }
}

/// The choices in the data of a list of lines, up to the end mark.
pub open spec fn lines_choices(list: Seq<Seq<char>>) -> Seq<Tree>
    decreases list.len(),
{
    if list.len() == 0 {
        seq![]
    } else if !starts_with(list[0], "data: "@) {
        lines_choices(list.drop_first())
    } else if is_end_mark(list[0]) {
        seq![]
    } else {
        data_choices(list[0].skip(6)) + lines_choices(list.drop_first())
    }
}

/// The choices in the complete blocks of a text, in their order.
pub open spec fn text_choices(text: Seq<char>) -> Seq<Tree>
    decreases text.len(),
    via text_choices_decreases
{
    match first_break(text) {
        Some(at) => lines_choices(lines(text.take(at))) + text_choices(text.skip(at + 2)),
        None => seq![],
    }
}

#[via_fn]
proof fn text_choices_decreases(text: Seq<char>) {
    lemma_first_break(text);
}

/// The reading finds nothing in an event that tells of the whole message.
pub open spec fn reads_blocks<B>(read: spec_fn(Event) -> Option<B>) -> bool {
    &&& forall|delta: Map<Seq<char>, Tree>, tokens: int|
        read(#[trigger] message_delta(delta, tokens)) is None
    &&& read(stop_event()) is None
}

proof fn lemma_choices_add(now: Standing, a: Seq<Tree>, b: Seq<Tree>)
    ensures
        choices_progress(now, a + b) == choices_progress(now, a).then_events(
            choices_progress(choices_progress(now, a).now, b),
        ),
    decreases b.len(),
{
    let first = choices_progress(now, a);
    if b.len() == 0 {
        assert(a + b =~= a);
        assert(first.events + Seq::<Event>::empty() =~= first.events);
    } else {
        lemma_choices_add(now, a, b.drop_last());
        assert((a + b).drop_last() =~= a + b.drop_last());
        let second = choices_progress(first.now, b.drop_last());
        let last = choice_progress(second.now, b.last());
        assert((first.events + second.events) + last.events =~= first.events + (second.events
            + last.events));
    }
}

/// What two steps tell, read of the choices that both say.
proof fn lemma_read_add<B>(
    now: Standing,
    a: Seq<Tree>,
    b: Seq<Tree>,
    first: Progress,
    second: Progress,
    read: spec_fn(Event) -> Option<B>,
)
    requires
        first.now == choices_progress(now, a).now,
        first.events.filter_map(read) == choices_progress(now, a).events.filter_map(read),
        second.now == choices_progress(first.now, b).now,
        second.events.filter_map(read) == choices_progress(first.now, b).events.filter_map(read),
    ensures
        first.then_events(second).now == choices_progress(now, a + b).now,
        first.then_events(second).events.filter_map(read) == choices_progress(
            now,
            a + b,
        ).events.filter_map(read),
{
    lemma_choices_add(now, a, b);
    lemma_filter_map_add(first.events, second.events, read);
    lemma_filter_map_add(
        choices_progress(now, a).events,
        choices_progress(first.now, b).events,
        read,
    );
}

proof fn lemma_data_read<B>(now: Standing, data: Seq<char>, read: spec_fn(Event) -> Option<B>)
    requires
        reads_blocks(read),
    ensures
        data_progress(now, data).now == choices_progress(now, data_choices(data)).now,
        data_progress(now, data).events.filter_map(read) == choices_progress(
            now,
            data_choices(data),
        ).events.filter_map(read),
{
    match json_parse(data) {
        Some(chunk) => {
            let said = choices_progress(now, chunk_choices(chunk)).events;
            let usage = usage_events(chunk);
            lemma_filter_map_add(said, usage, read);
            lemma_filter_map_empty(usage, read);
            assert(said.filter_map(read) + usage.filter_map(read) =~= said.filter_map(read));
        },
        None => {},
    }
}

proof fn lemma_lines_read<B>(
    now: Standing,
    list: Seq<Seq<char>>,
    read: spec_fn(Event) -> Option<B>,
)
    requires
        reads_blocks(read),
    ensures
        lines_progress(now, list).now == choices_progress(now, lines_choices(list)).now,
        lines_progress(now, list).events.filter_map(read) == choices_progress(
            now,
            lines_choices(list),
        ).events.filter_map(read),
    decreases list.len(),
{
    if list.len() > 0 {
        let rest = list.drop_first();
        if !starts_with(list[0], "data: "@) {
            lemma_lines_read(now, rest, read);
        } else if is_end_mark(list[0]) {
            lemma_filter_map_empty(done_events(), read);
            assert(done_events().filter_map(read) =~= Seq::<Event>::empty().filter_map(read));
        } else {
            let data = list[0].skip(6);
            let said = data_progress(now, data);
            lemma_data_read(now, data, read);
            lemma_lines_read(said.now, rest, read);
            lemma_read_add(
                now,
                data_choices(data),
                lines_choices(rest),
                said,
                lines_progress(said.now, rest),
                read,
            );
        }
    }
}

/// What a text tells of blocks is what its choices tell.
proof fn lemma_text_read<B>(now: Standing, text: Seq<char>, read: spec_fn(Event) -> Option<B>)
    requires
        reads_blocks(read),
    ensures
        text_progress(now, text).now == choices_progress(now, text_choices(text)).now,
        text_progress(now, text).events.filter_map(read) == choices_progress(
            now,
            text_choices(text),
        ).events.filter_map(read),
    decreases text.len(),
{
    lemma_first_break(text);
    match first_break(text) {
        Some(at) => {
            let list = lines(text.take(at));
            let rest = text.skip(at + 2);
            let said = lines_progress(now, list);
            lemma_lines_read(now, list, read);
            lemma_text_read(said.now, rest, read);
            lemma_read_add(
                now,
                lines_choices(list),
                text_choices(rest),
                said,
                text_progress(said.now, rest),
                read,
            );
        },
        None => {},
    }
}

/// The event adds something of that kind to the block at that index.
pub open spec fn is_delta(event: Event, kind: Seq<char>, index: int) -> bool {
    &&& event.name == "content_block_delta"@
    &&& event.data.at("index"@) == Tree::Int(index)
    &&& event.data.at("delta"@).at("type"@) == Tree::Text(kind)
}

/// The text that an event adds to the block at that index, where it adds any.
pub open spec fn told_text(index: int) -> spec_fn(Event) -> Option<Seq<char>> {
    |event: Event|
        if is_delta(event, "text_delta"@, index) {
            event.data.at("delta"@).at("text"@).as_text()
        } else {
            None
        }
}

/// The piece of arguments that an event adds to the block at that index, where
/// it adds one.
pub open spec fn told_arguments(index: int) -> spec_fn(Event) -> Option<Seq<char>> {
    |event: Event|
        if is_delta(event, "input_json_delta"@, index) {
            event.data.at("delta"@).at("partial_json"@).as_text()
        } else {
            None
        }
}

/// The text of a choice, where it has one.
pub open spec fn choice_text() -> spec_fn(Tree) -> Option<Seq<char>> {
    |choice: Tree| choice.at("delta"@).at("content"@).as_text()
}

/// The texts of the choices that belong to the block at that index: to the
/// first all, to others none.
pub open spec fn texts_at(choices: Seq<Tree>, index: int) -> Seq<Seq<char>> {
    if index == 0 {
        choices.filter_map(choice_text())
    } else {
        seq![]
    }
}

/// The arguments of a tool call that belong to the block at that index.
pub open spec fn call_piece(call: Tree, index: int) -> Seq<char> {
    match call.at("function"@).at("arguments"@).as_text() {
        Some(arguments) => if call_index(call) == index {
            arguments
        } else {
            seq![]
        },
        None => seq![],
    }
}

/// The arguments of tool calls that belong to the block at that index, joined.
pub open spec fn calls_arguments(calls: Seq<Tree>, index: int) -> Seq<char>
    decreases calls.len(),
{
    if calls.len() == 0 {
        seq![]
    } else {
        calls_arguments(calls.drop_last(), index) + call_piece(calls.last(), index)
    }
}

/// The arguments in a choice that belong to the block at that index, joined.
pub open spec fn choice_arguments(choice: Tree, index: int) -> Seq<char> {
    match choice.at("delta"@).at("tool_calls"@).as_array() {
        Some(calls) => calls_arguments(calls, index),
        None => seq![],
    }
}

/// The arguments in the choices that belong to the block at that index, joined.
pub open spec fn arguments_at(choices: Seq<Tree>, index: int) -> Seq<char>
    decreases choices.len(),
{
    if choices.len() == 0 {
        seq![]
    } else {
        arguments_at(choices.drop_last(), index) + choice_arguments(choices.last(), index)
    }
}

/// The names in an event's data are distinct, and so are those of the events.
proof fn lemma_event_names()
    ensures
        "type"@ != "index"@,
        "type"@ != "delta"@,
        "index"@ != "delta"@,
        "index"@ != "content_block"@,
        "type"@ != "text"@,
        "type"@ != "partial_json"@,
        "text_delta"@ != "input_json_delta"@,
        "content_block_start"@ != "content_block_delta"@,
        "content_block_start"@ != "content_block_stop"@,
        "content_block_delta"@ != "content_block_stop"@,
        "message_delta"@ != "content_block_delta"@,
        "message_delta"@ != "content_block_start"@,
        "message_delta"@ != "content_block_stop"@,
        "message_stop"@ != "content_block_delta"@,
        "message_stop"@ != "content_block_start"@,
        "message_stop"@ != "content_block_stop"@,
        "message_start"@ != "content_block_delta"@,
        "message_start"@ != "content_block_start"@,
        "message_start"@ != "content_block_stop"@,
{
    lemma_inner_names();
    reveal_strlit("type");
    reveal_strlit("index");
    reveal_strlit("delta");
    reveal_strlit("content_block");
    reveal_strlit("text");
    reveal_strlit("partial_json");
    reveal_strlit("text_delta");
    reveal_strlit("input_json_delta");
    reveal_strlit("content_block_start");
    reveal_strlit("content_block_delta");
    reveal_strlit("content_block_stop");
    reveal_strlit("message_delta");
    assert("type"@.len() == 4);
    assert("index"@.len() == 5);
    assert("delta"@.len() == 5);
    assert("content_block"@.len() == 13);
    assert("text"@.len() == 4);
    assert("partial_json"@.len() == 12);
    assert("text_delta"@.len() == 10);
    assert("input_json_delta"@.len() == 16);
    assert("content_block_start"@.len() == 19);
    assert("content_block_delta"@.len() == 19);
    assert("content_block_stop"@.len() == 18);
    assert("message_delta"@.len() == 13);
    assert("index"@[0] != "delta"@[0]);
    assert("type"@[1] != "text"@[1]);
    assert("content_block_start"@[14] != "content_block_delta"@[14]);
}

/// What each kind of event tells.
proof fn lemma_told(index: int)
    ensures
        reads_blocks(told_text(index)),
        reads_blocks(told_arguments(index)),
        forall|at: int|
            told_text(index)(#[trigger] block_stop(at)) is None && told_arguments(index)(
                block_stop(at),
            ) is None,
        forall|at: int, block: Tree|
            told_text(index)(#[trigger] block_start(at, block)) is None && told_arguments(index)(
                block_start(at, block),
            ) is None,
        forall|call: Tree, arguments: Seq<char>|
            told_text(index)(#[trigger] call_delta(call, arguments)) is None && told_arguments(
                index,
            )(call_delta(call, arguments)) == if call_index(call) == index {
                Some(arguments)
            } else {
                None::<Seq<char>>
            },
        forall|text: Seq<char>|
            told_arguments(index)(#[trigger] text_delta(text)) is None && told_text(index)(
                text_delta(text),
            ) == if index == 0 {
                Some(text)
            } else {
                None::<Seq<char>>
            },
{
    lemma_event_names();
}

proof fn lemma_told_text_events(opened: bool, content: Tree, index: int)
    ensures
        text_events(opened, content).filter_map(told_text(index)) == match content.as_text() {
            Some(text) => if index == 0 {
                seq![text]
            } else {
                seq![]
            },
            None => seq![],
        },
        text_events(opened, content).filter_map(told_arguments(index)) == Seq::<
            Seq<char>,
        >::empty(),
{
    lemma_told(index);
    let events = text_events(opened, content);
    match content.as_text() {
        Some(text) => {
            assert(events.last() == text_delta(text));
            let before = events.drop_last();
            assert forall|i: int| 0 <= i < before.len() implies told_text(index)(
                #[trigger] before[i],
            ) is None && told_arguments(index)(before[i]) is None by {
                assert(before[i] == text_block_start());
            }
            lemma_filter_map_empty(before, told_text(index));
            lemma_filter_map_empty(before, told_arguments(index));
            assert(events.filter_map(told_text(index)) =~= if index == 0 {
                seq![text]
            } else {
                seq![]
            });
            assert(events.filter_map(told_arguments(index)) =~= seq![]);
        },
        None => {
            lemma_filter_map_empty(events, told_text(index));
            lemma_filter_map_empty(events, told_arguments(index));
            assert(events.filter_map(told_text(index)) =~= seq![]);
            assert(events.filter_map(told_arguments(index)) =~= seq![]);
        },
    }
}

proof fn lemma_told_call(call: Tree, index: int)
    ensures
        call_events()(call).filter_map(told_text(index)).len() == 0,
        call_events()(call).filter_map(told_arguments(index)).flatten() == call_piece(call, index),
{
    lemma_told(index);
    let events = call_events()(call);
    lemma_filter_map_empty(events, told_text(index));
    let told = events.filter_map(told_arguments(index));
    let arguments = call.at("function"@).at("arguments"@).as_text();
    if arguments is Some && arguments->0.len() > 0 {
        assert(events.last() == call_delta(call, arguments->0));
        lemma_filter_map_empty(events.drop_last(), told_arguments(index));
        if call_index(call) == index {
            assert(told =~= seq![arguments->0]);
            told.lemma_flatten_singleton();
        } else {
            assert(told =~= seq![]);
            assert(told.flatten() =~= call_piece(call, index));
        }
    } else {
        lemma_filter_map_empty(events, told_arguments(index));
        assert(told =~= seq![]);
        assert(told.flatten() =~= call_piece(call, index));
    }
}

proof fn lemma_told_calls(calls: Seq<Tree>, index: int)
    ensures
        calls.flat_map(call_events()).filter_map(told_text(index)).len() == 0,
        calls.flat_map(call_events()).filter_map(told_arguments(index)).flatten()
            == calls_arguments(calls, index),
    decreases calls.len(),
{
    let all = calls.flat_map(call_events());
    if calls.len() == 0 {
        assert(all =~= seq![]);
        assert(all.filter_map(told_arguments(index)).flatten() =~= seq![]);
    } else {
        let rest = calls.drop_last();
        let before = rest.flat_map(call_events());
        let events = call_events()(calls.last());
        lemma_told_calls(rest, index);
        lemma_told_call(calls.last(), index);
        calls.lemma_flat_map_take_append(call_events(), calls.len() - 1);
        assert(calls.take(calls.len() - 1) =~= rest);
        assert(calls.take(calls.len() as int) =~= calls);
        lemma_filter_map_add(before, events, told_text(index));
        lemma_filter_map_add(before, events, told_arguments(index));
        vstd::seq_lib::lemma_flatten_concat(
            before.filter_map(told_arguments(index)),
            events.filter_map(told_arguments(index)),
        );
    }
}

proof fn lemma_told_choices(now: Standing, choices: Seq<Tree>, index: int)
    ensures
        choices_progress(now, choices).events.filter_map(told_text(index)) == texts_at(
            choices,
            index,
        ),
        choices_progress(now, choices).events.filter_map(told_arguments(index)).flatten()
            == arguments_at(choices, index),
    decreases choices.len(),
{
    let all = choices_progress(now, choices).events;
    if choices.len() == 0 {
        assert(all.filter_map(told_text(index)) =~= texts_at(choices, index));
        assert(all.filter_map(told_arguments(index)).flatten() =~= seq![]);
    } else {
        lemma_told(index);
        let rest = choices.drop_last();
        let choice = choices.last();
        let before = choices_progress(now, rest);
        lemma_told_choices(now, rest, index);
        let delta = choice.at("delta"@);
        let texts = text_events(before.now.text, delta.at("content"@));
        let calls = calls_events(delta.at("tool_calls"@));
        let finish = finish_events(
            choice_opens(before.now.open, choice),
            choice.at("finish_reason"@),
        );
        let added = choice_progress(before.now, choice).events;
        lemma_told_text_events(before.now.text, delta.at("content"@), index);
        match delta.at("tool_calls"@).as_array() {
            Some(list) => lemma_told_calls(list, index),
            None => {
                assert(calls.filter_map(told_arguments(index)).flatten() =~= seq![]);
            },
        }
        lemma_filter_map_empty(finish, told_text(index));
        lemma_filter_map_empty(finish, told_arguments(index));
        lemma_filter_map_add(texts, calls, told_text(index));
        lemma_filter_map_add(texts + calls, finish, told_text(index));
        lemma_filter_map_add(before.events, added, told_text(index));
        lemma_filter_map_add(texts, calls, told_arguments(index));
        lemma_filter_map_add(texts + calls, finish, told_arguments(index));
        lemma_filter_map_add(before.events, added, told_arguments(index));
        assert(all.filter_map(told_text(index)) =~= texts_at(choices, index));
        assert(added.filter_map(told_arguments(index)) =~= calls.filter_map(told_arguments(index)));
        vstd::seq_lib::lemma_flatten_concat(
            before.events.filter_map(told_arguments(index)),
            added.filter_map(told_arguments(index)),
        );
    }
}

/// Nothing that a stream says is lost or changed. The texts that come out are
/// the texts of the choices in its data lines, in their order, all of them in
/// the first block; and the pieces of arguments that come out for a block, put
/// together, are the arguments of the tool calls that belong to it, put
/// together. A data line that is no JSON says nothing.
pub proof fn law_stream_is_told(id: Seq<char>, model: Seq<char>, text: Seq<char>, index: int)
    ensures
        stream_events(id, model, text).filter_map(told_text(0)) == text_choices(text).filter_map(
            choice_text(),
        ),
        index != 0 ==> stream_events(id, model, text).filter_map(told_text(index)).len() == 0,
        stream_events(id, model, text).filter_map(told_arguments(index)).flatten() == arguments_at(
            text_choices(text),
            index,
        ),
{
    lemma_told(0);
    lemma_told(index);
    lemma_told_choices(fresh(), text_choices(text), 0);
    lemma_told_choices(fresh(), text_choices(text), index);
    lemma_stream_read(id, model, text, told_text(0));
    lemma_stream_read(id, model, text, told_text(index));
    lemma_stream_read(id, model, text, told_arguments(index));
}

/// What a stream tells of blocks is what its choices tell.
proof fn lemma_stream_read<B>(
    id: Seq<char>,
    model: Seq<char>,
    text: Seq<char>,
    read: spec_fn(Event) -> Option<B>,
)
    requires
        reads_blocks(read),
        read(start_event(id, model)) is None,
    ensures
        stream_events(id, model, text).filter_map(read) == choices_progress(
            fresh(),
            text_choices(text),
        ).events.filter_map(read),
{
    lemma_text_read(fresh(), text, read);
    let start = seq![start_event(id, model)];
    let told = text_progress(fresh(), text).events;
    let end = if text_marked(text) {
        seq![]
    } else {
        seq![stop_event()]
    };
    lemma_filter_map_empty(start, read);
    lemma_filter_map_empty(end, read);
    lemma_filter_map_add(start, told, read);
    lemma_filter_map_add(start + told, end, read);
    assert(stream_events(id, model, text) =~= start + told + end);
    assert(stream_events(id, model, text).filter_map(read) =~= told.filter_map(read));
}

/// The block of a tool call stands one behind the call's own index, and a call
/// without an index counts as the first.
pub proof fn law_calls_stand_behind_the_text(call: Tree)
    ensures
        match call.at("index"@).as_i64() {
            Some(own) => 0 <= own < i32::MAX ==> call_index(call) == own + 1,
            None => call_index(call) == 1,
        },
{
}

// ---------------------------------------------------------------------------
// The blocks of a stream
// ---------------------------------------------------------------------------

/// The event opens the text block.
pub open spec fn text_opening() -> spec_fn(Event) -> Option<()> {
    |event: Event|
        if event == text_block_start() {
            Some(())
        } else {
            None
        }
}

/// No other event opens the text block.
proof fn lemma_other_openings()
    ensures
        reads_blocks(text_opening()),
        forall|index: int, delta: Tree|
            text_opening()(#[trigger] block_delta(index, delta)) is None,
        forall|index: int| text_opening()(#[trigger] block_stop(index)) is None,
        forall|call: Tree, function: Tree|
            text_opening()(#[trigger] call_start(call, function)) is None,
{
    lemma_event_names();
    reveal_strlit("tool_use");
    reveal_strlit("text");
    reveal_strlit("type");
    reveal_strlit("name");
    reveal_strlit("id");
    reveal_strlit("input");
    assert("type"@.len() == 4);
    assert("id"@.len() == 2);
    assert("input"@.len() == 5);
    assert("type"@[0] != "name"@[0]);
    assert forall|call: Tree, function: Tree|
        text_opening()(#[trigger] call_start(call, function)) is None by {
        let made = call_start(call, function).data.at("content_block"@);
        let text = text_block_start().data.at("content_block"@);
        assert(made.at("type"@) == Tree::Text("tool_use"@));
        assert(text.at("type"@) == Tree::Text("text"@));
        assert("tool_use"@.len() != "text"@.len());
    }
}

proof fn lemma_call_openings(calls: Seq<Tree>)
    ensures
        calls.flat_map(call_events()).filter_map(text_opening()).len() == 0,
    decreases calls.len(),
{
    if calls.len() == 0 {
        assert(calls.flat_map(call_events()) =~= seq![]);
    } else {
        lemma_other_openings();
        let rest = calls.drop_last();
        let events = call_events()(calls.last());
        lemma_call_openings(rest);
        calls.lemma_flat_map_take_append(call_events(), calls.len() - 1);
        assert(calls.take(calls.len() - 1) =~= rest);
        assert(calls.take(calls.len() as int) =~= calls);
        lemma_filter_map_add(rest.flat_map(call_events()), events, text_opening());
        lemma_filter_map_empty(events, text_opening());
    }
}

proof fn lemma_choices_openings(now: Standing, choices: Seq<Tree>)
    ensures
        choices_progress(now, choices).now.text == (now.text || choices.filter_map(
            choice_text(),
        ).len() > 0),
        choices_progress(now, choices).events.filter_map(text_opening()).len() == if !now.text
            && choices.filter_map(choice_text()).len() > 0 {
            1nat
        } else {
            0nat
        },
    decreases choices.len(),
{
    if choices.len() > 0 {
        lemma_other_openings();
        let rest = choices.drop_last();
        let choice = choices.last();
        let before = choices_progress(now, rest);
        lemma_choices_openings(now, rest);
        let delta = choice.at("delta"@);
        let texts = text_events(before.now.text, delta.at("content"@));
        let calls = calls_events(delta.at("tool_calls"@));
        let finish = finish_events(
            choice_opens(before.now.open, choice),
            choice.at("finish_reason"@),
        );
        lemma_filter_map_add(texts, calls, text_opening());
        lemma_filter_map_add(texts + calls, finish, text_opening());
        lemma_filter_map_add(
            before.events,
            choice_progress(before.now, choice).events,
            text_opening(),
        );
        lemma_filter_map_empty(finish, text_opening());
        match delta.at("tool_calls"@).as_array() {
            Some(list) => lemma_call_openings(list),
            None => {},
        }
        if texts.len() == 2 {
            let first = texts.drop_last();
            assert(first.drop_last().filter_map(text_opening()).len() == 0);
            assert(first.last() == text_block_start());
            assert(first.filter_map(text_opening()).len() == 1);
            assert(text_opening()(texts.last()) is None);
        } else {
            lemma_filter_map_empty(texts, text_opening());
        }
    }
}

/// The text block is opened once in a stream that says any text, and not at
/// all in another.
pub proof fn law_text_opens_once(id: Seq<char>, model: Seq<char>, text: Seq<char>)
    ensures
        stream_events(id, model, text).filter_map(text_opening()).len() == if text_choices(
            text,
        ).filter_map(choice_text()).len() > 0 {
            1nat
        } else {
            0nat
        },
{
    lemma_event_names();
    lemma_other_openings();
    lemma_choices_openings(fresh(), text_choices(text));
    lemma_stream_read(id, model, text, text_opening());
}

/// The event opens the block at that index.
pub open spec fn starts_block(event: Event, index: int) -> bool {
    event.name == "content_block_start"@ && event.data.at("index"@) == Tree::Int(index)
}

/// The event adds to the block at that index.
pub open spec fn adds_to_block(event: Event, index: int) -> bool {
    event.name == "content_block_delta"@ && event.data.at("index"@) == Tree::Int(index)
}

/// The event closes the block at that index.
pub open spec fn stops_block(event: Event, index: int) -> bool {
    event.name == "content_block_stop"@ && event.data.at("index"@) == Tree::Int(index)
}

/// The event, where it speaks of a block.
pub open spec fn as_block() -> spec_fn(Event) -> Option<Event> {
    |event: Event|
        if event.name == "content_block_start"@ || event.name == "content_block_delta"@
            || event.name == "content_block_stop"@ {
            Some(event)
        } else {
            None
        }
}

/// What each kind of event does to the block at an index.
proof fn lemma_block_kinds()
    ensures
        reads_blocks(as_block()),
        forall|at: int, block: Tree, index: int| #[trigger]
            starts_block(block_start(at, block), index) <==> at == index,
        forall|at: int, block: Tree|
            (#[trigger] block_start(at, block)).name == "content_block_start"@
                && "content_block_start"@ != "content_block_stop"@,
        forall|at: int, delta: Tree|
            (#[trigger] block_delta(at, delta)).name == "content_block_delta"@
                && "content_block_delta"@ != "content_block_stop"@ && "content_block_delta"@
                != "content_block_start"@,
        forall|at: int, index: int| #[trigger]
            stops_block(block_stop(at), index) <==> at == index,
        forall|at: int| as_block()(#[trigger] block_stop(at)) == Some(block_stop(at)),
{
    lemma_event_names();
}

/// The choice tells a finish reason.
pub open spec fn finishes(choice: Tree) -> bool {
    choice.at("finish_reason"@).as_text() is Some
}

/// The choice opens the block at that index.
pub open spec fn opens_at(choice: Tree, index: int) -> bool {
    choice_opens(seq![], choice).contains(index)
}

/// The choice opens the block at that index, or adds to it.
pub open spec fn says_at(choice: Tree, index: int) -> bool {
    ||| opens_at(choice, index)
    ||| exists|i: int|
        0 <= i < said_events(true, choice).len() && adds_to_block(
            #[trigger] said_events(true, choice)[i],
            index,
        )
}

/// The block at that index comes to its end at that choice: it tells a finish
/// reason, no choice behind it says anything in the block, and none that opens
/// the block stands at or before an earlier finish reason.
pub open spec fn ends_at(choices: Seq<Tree>, end: int, index: int) -> bool {
    &&& 0 <= end < choices.len()
    &&& finishes(choices[end])
    &&& forall|i: int| end < i < choices.len() ==> !says_at(#[trigger] choices[i], index)
    &&& not_finished(choices.take(end), index)
}

/// No choice that opens the block at that index stands at or before one that
/// tells a finish reason.
pub open spec fn not_finished(choices: Seq<Tree>, index: int) -> bool {
    forall|i: int, j: int|
        0 <= i <= j < choices.len() && finishes(#[trigger] choices[j]) ==> !opens_at(
            #[trigger] choices[i],
            index,
        )
}

/// None of the events closes a block, and each block that they open is among
/// the open ones.
spec fn keeps_open(events: Seq<Event>, open: Seq<int>) -> bool {
    &&& forall|i: int|
        0 <= i < events.len() ==> (#[trigger] events[i]).name != "content_block_stop"@
    &&& forall|i: int, index: int|
        0 <= i < events.len() && #[trigger] starts_block(events[i], index) ==> open.contains(index)
}

/// One list of open blocks holds at least those of another, none twice.
spec fn grows(before: Seq<int>, after: Seq<int>) -> bool {
    &&& before.no_duplicates() ==> after.no_duplicates()
    &&& forall|index: int| #[trigger] before.contains(index) ==> after.contains(index)
}

proof fn lemma_with_open(open: Seq<int>, index: int)
    ensures
        grows(open, with_open(open, index)),
        with_open(open, index).contains(index),
{
    if !open.contains(index) {
        let after = open.push(index);
        assert(after[open.len() as int] == index);
        assert forall|other: int| #[trigger] open.contains(other) implies after.contains(other) by {
            let i = choose|i: int| 0 <= i < open.len() && open[i] == other;
            assert(after[i] == other);
        }
    }
}

proof fn lemma_keeps_add(a: Seq<Event>, b: Seq<Event>, before: Seq<int>, after: Seq<int>)
    requires
        keeps_open(a, before),
        grows(before, after),
        keeps_open(b, after),
    ensures
        keeps_open(a + b, after),
{
    assert forall|i: int, index: int|
        0 <= i < (a + b).len() && #[trigger] starts_block(
            (a + b)[i],
            index,
        ) implies after.contains(index) by {
        if i < a.len() {
            assert(starts_block(a[i], index));
            assert(before.contains(index));
        } else {
            assert(starts_block(b[i - a.len()], index));
        }
    }
}

proof fn lemma_calls_keep(open: Seq<int>, calls: Seq<Tree>)
    ensures
        grows(open, calls_open(open, calls)),
        keeps_open(calls.flat_map(call_events()), calls_open(open, calls)),
    decreases calls.len(),
{
    if calls.len() == 0 {
        assert(calls.flat_map(call_events()) =~= seq![]);
    } else {
        lemma_block_kinds();
        let rest = calls.drop_last();
        let call = calls.last();
        let before = calls_open(open, rest);
        let after = calls_open(open, calls);
        let events = call_events()(call);
        lemma_calls_keep(open, rest);
        match opened_by_call(call) {
            Some(index) => lemma_with_open(before, index),
            None => {},
        }
        calls.lemma_flat_map_take_append(call_events(), calls.len() - 1);
        assert(calls.take(calls.len() - 1) =~= rest);
        assert(calls.take(calls.len() as int) =~= calls);
        assert(keeps_open(events, after)) by {
            assert forall|i: int, index: int|
                0 <= i < events.len() && #[trigger] starts_block(
                    events[i],
                    index,
                ) implies after.contains(index) by {
                let function = call.get("function"@)->0;
                assert(events[i] == call_start(call, function));
                assert(starts_block(events[i], call_index(call)));
            }
        }
        lemma_keeps_add(rest.flat_map(call_events()), events, before, after);
    }
}

proof fn lemma_said_keeps(now: Standing, choice: Tree)
    ensures
        grows(now.open, choice_opens(now.open, choice)),
        keeps_open(said_events(now.text, choice), choice_opens(now.open, choice)),
{
    lemma_block_kinds();
    let delta = choice.at("delta"@);
    let texts = text_events(now.text, delta.at("content"@));
    let calls = calls_events(delta.at("tool_calls"@));
    let texted = text_opens(now.open, delta.at("content"@));
    let open = listed_calls_open(texted, delta.at("tool_calls"@));
    lemma_with_open(now.open, 0);
    assert(keeps_open(texts, texted)) by {
        assert forall|i: int, index: int|
            0 <= i < texts.len() && #[trigger] starts_block(
                texts[i],
                index,
            ) implies texted.contains(index) by {
            assert(texts[i] == text_block_start());
            assert(starts_block(texts[i], 0));
        }
    }
    match delta.at("tool_calls"@).as_array() {
        Some(list) => lemma_calls_keep(texted, list),
        None => {},
    }
    lemma_keeps_add(texts, calls, texted, open);
}

/// Which blocks are open behind calls: those before, and those that the calls
/// open.
proof fn lemma_calls_open(open: Seq<int>, calls: Seq<Tree>, index: int)
    ensures
        calls_open(open, calls).contains(index) <==> open.contains(index) || calls_open(
            seq![],
            calls,
        ).contains(index),
    decreases calls.len(),
{
    if calls.len() > 0 {
        let rest = calls.drop_last();
        lemma_calls_open(open, rest, index);
        match opened_by_call(calls.last()) {
            Some(at) => {
                lemma_opened(calls_open(open, rest), at, index);
                lemma_opened(calls_open(seq![], rest), at, index);
            },
            None => {},
        }
    }
}

proof fn lemma_opened(open: Seq<int>, at: int, index: int)
    ensures
        with_open(open, at).contains(index) <==> open.contains(index) || at == index,
{
    lemma_with_open(open, at);
    if with_open(open, at).contains(index) && at != index {
        let i = choose|i: int|
            0 <= i < with_open(open, at).len() && with_open(open, at)[i] == index;
        assert(open[i] == index);
    }
}

/// Which blocks are open behind a choice: those before, and those that it
/// opens.
proof fn lemma_choice_opens(open: Seq<int>, choice: Tree, index: int)
    ensures
        choice_opens(open, choice).contains(index) <==> open.contains(index) || opens_at(
            choice,
            index,
        ),
{
    let delta = choice.at("delta"@);
    let texted = text_opens(open, delta.at("content"@));
    let alone = text_opens(seq![], delta.at("content"@));
    lemma_opened(open, 0, index);
    lemma_opened(seq![], 0, index);
    match delta.at("tool_calls"@).as_array() {
        Some(list) => {
            lemma_calls_open(texted, list, index);
            lemma_calls_open(alone, list, index);
        },
        None => {},
    }
}

/// None of the events tells of the block at that index.
spec fn is_unsaid(events: Seq<Event>, index: int) -> bool {
    forall|i: int|
        0 <= i < events.len() ==> !starts_block(#[trigger] events[i], index) && !adds_to_block(
            events[i],
            index,
        ) && !stops_block(events[i], index)
}

/// None of the events closes the block at that index, and where one opens it,
/// it is among the open ones.
spec fn keeps_open_at(events: Seq<Event>, open: Seq<int>, index: int) -> bool {
    forall|i: int|
        0 <= i < events.len() ==> !stops_block(#[trigger] events[i], index) && (starts_block(
            events[i],
            index,
        ) ==> open.contains(index))
}

/// The ends of other blocks, and the reason of the finish, tell nothing of the
/// block at that index.
proof fn lemma_finish_unsaid(open: Seq<int>, finish: Tree, index: int)
    requires
        !open.contains(index),
    ensures
        is_unsaid(finish_events(open, finish), index),
{
    lemma_block_kinds();
    lemma_event_names();
    let events = finish_events(open, finish);
    assert forall|i: int| 0 <= i < events.len() implies !starts_block(#[trigger] events[i], index)
        && !adds_to_block(events[i], index) && !stops_block(events[i], index) by {
        if i < open.len() {
            assert(events[i] == block_stop(open[i]));
            assert(open[i] != index);
        }
    }
}

/// Up to the finish reason that closes it, a block that was opened is open.
proof fn lemma_before_the_end(choices: Seq<Tree>, index: int)
    requires
        not_finished(choices, index),
    ensures
        choices_progress(fresh(), choices).now.open.no_duplicates(),
        keeps_open_at(
            choices_progress(fresh(), choices).events,
            choices_progress(fresh(), choices).now.open,
            index,
        ),
        choices_progress(fresh(), choices).now.open.contains(index) ==> exists|i: int|
            0 <= i < choices.len() && opens_at(#[trigger] choices[i], index),
    decreases choices.len(),
{
    if choices.len() > 0 {
        let last = choices.len() - 1;
        let rest = choices.drop_last();
        assert forall|i: int, j: int|
            0 <= i <= j < rest.len() && finishes(#[trigger] rest[j]) implies !opens_at(
            #[trigger] rest[i],
            index,
        ) by {
            assert(rest[i] == choices[i] && rest[j] == choices[j]);
        }
        lemma_before_the_end(rest, index);
        let before = choices_progress(fresh(), rest);
        let choice = choices[last];
        let open = choice_opens(before.now.open, choice);
        lemma_said_keeps(before.now, choice);
        lemma_choice_opens(before.now.open, choice, index);
        if open.contains(index) {
            if before.now.open.contains(index) {
                let i = choose|i: int| 0 <= i < rest.len() && opens_at(#[trigger] rest[i], index);
                assert(opens_at(choices[i], index));
                assert(!finishes(choices[last]));
            } else {
                assert(opens_at(choices[last], index));
            }
        } else {
            lemma_finish_unsaid(open, choice.at("finish_reason"@), index);
        }
    }
}

/// Behind the finish reason that closed it, nothing is told of a block.
proof fn lemma_behind_the_end(now: Standing, choices: Seq<Tree>, index: int)
    requires
        !now.open.contains(index),
        forall|i: int| 0 <= i < choices.len() ==> !says_at(#[trigger] choices[i], index),
    ensures
        !choices_progress(now, choices).now.open.contains(index),
        is_unsaid(choices_progress(now, choices).events, index),
    decreases choices.len(),
{
    if choices.len() > 0 {
        let last = choices.len() - 1;
        let rest = choices.drop_last();
        assert forall|i: int| 0 <= i < rest.len() implies !says_at(#[trigger] rest[i], index) by {
            assert(rest[i] == choices[i]);
        }
        lemma_behind_the_end(now, rest, index);
        let before = choices_progress(now, rest);
        let choice = choices[last];
        assert(!says_at(choices[last], index));
        let open = choice_opens(before.now.open, choice);
        let said = said_events(before.now.text, choice);
        lemma_choice_opens(before.now.open, choice, index);
        lemma_said_keeps(before.now, choice);
        lemma_finish_unsaid(open, choice.at("finish_reason"@), index);
        assert forall|i: int| 0 <= i < said.len() implies !adds_to_block(
            #[trigger] said[i],
            index,
        ) by {
            lemma_event_names();
            let alone = said_events(true, choice);
            if before.now.text || choice.at("delta"@).at("content"@).as_text() is None {
                assert(said =~= alone);
                assert(said[i] == alone[i]);
            } else if i == 0 {
                assert(said[i] == text_block_start());
            } else {
                assert(said[i] == alone[i - 1]);
            }
        }
    }
}

/// At that place, and nowhere else, the block at that index is closed; all that
/// opens it or adds to it comes before.
pub open spec fn is_only_stop(events: Seq<Event>, index: int, place: int) -> bool {
    &&& 0 <= place < events.len()
    &&& stops_block(events[place], index)
    &&& forall|i: int|
        0 <= i < events.len() && i != place ==> !stops_block(#[trigger] events[i], index)
    &&& forall|i: int|
        0 <= i < events.len() && (starts_block(#[trigger] events[i], index) || adds_to_block(
            events[i],
            index,
        )) ==> i < place
}

/// The block at that index is closed once, behind all that it holds.
pub open spec fn is_closed_once(events: Seq<Event>, index: int) -> bool {
    exists|place: int| #[trigger] is_only_stop(events, index, place)
}

/// Events that open the block at that index and do not close it, then the ends
/// of all open blocks, and then nothing more of it.
proof fn lemma_stops_close(said: Seq<Event>, open: Seq<int>, after: Seq<Event>, index: int)
    requires
        keeps_open_at(said, open, index),
        open.no_duplicates(),
        open.contains(index),
        is_unsaid(after, index),
    ensures
        is_closed_once(said + open.map_values(stop_of()) + after, index),
{
    lemma_block_kinds();
    let stops = open.map_values(stop_of());
    let all = said + stops + after;
    let k = choose|k: int| 0 <= k < open.len() && open[k] == index;
    let place = said.len() + k;
    assert(all[place] == block_stop(index));
    assert forall|j: int| 0 <= j < all.len() && j != place implies !stops_block(
        #[trigger] all[j],
        index,
    ) by {
        if j < said.len() {
            assert(all[j] == said[j]);
        } else if j < said.len() + stops.len() {
            assert(all[j] == block_stop(open[j - said.len()]));
        } else {
            assert(all[j] == after[j - said.len() - stops.len()]);
        }
    }
    assert forall|j: int|
        0 <= j < all.len() && (starts_block(#[trigger] all[j], index) || adds_to_block(
            all[j],
            index,
        )) implies j < place by {
        lemma_event_names();
        if said.len() <= j < said.len() + stops.len() {
            assert(all[j] == block_stop(open[j - said.len()]));
        } else if j >= said.len() {
            assert(all[j] == after[j - said.len() - stops.len()]);
        }
    }
    assert(is_only_stop(all, index, place));
}

proof fn lemma_choices_close(choices: Seq<Tree>, end: int, index: int)
    requires
        ends_at(choices, end, index),
        exists|i: int|
            0 <= i < choices_progress(fresh(), choices).events.len() && starts_block(
                #[trigger] choices_progress(fresh(), choices).events[i],
                index,
            ),
    ensures
        is_closed_once(choices_progress(fresh(), choices).events, index),
{
    lemma_block_kinds();
    lemma_event_names();
    let head = choices.take(end);
    let tail = choices.skip(end + 1);
    let choice = choices[end];
    assert forall|i: int| 0 <= i < tail.len() implies !says_at(#[trigger] tail[i], index) by {
        assert(tail[i] == choices[end + 1 + i]);
    }
    let before = choices_progress(fresh(), head);
    let here = choice_progress(before.now, choice);
    let behind = choices_progress(here.now, tail);
    lemma_before_the_end(head, index);
    lemma_said_keeps(before.now, choice);
    lemma_choice_opens(before.now.open, choice, index);
    lemma_behind_the_end(here.now, tail, index);
    let open = choice_opens(before.now.open, choice);
    let said = said_events(before.now.text, choice);
    let spoken = before.events + said;
    assert(head.push(choice).drop_last() =~= head);
    assert(choices =~= head.push(choice) + tail);
    lemma_choices_add(fresh(), head.push(choice), tail);
    let reason = finish_events(open, choice.at("finish_reason"@)).last();
    let after = seq![reason] + behind.events;
    let all = choices_progress(fresh(), choices).events;
    assert(all =~= spoken + open.map_values(stop_of()) + after);
    assert(is_unsaid(after, index)) by {
        assert forall|i: int| 0 <= i < after.len() implies !starts_block(
            #[trigger] after[i],
            index,
        ) && !adds_to_block(after[i], index) && !stops_block(after[i], index) by {
            if i > 0 {
                assert(after[i] == behind.events[i - 1]);
            }
        }
    }
    assert(keeps_open_at(spoken, open, index)) by {
        assert forall|i: int| 0 <= i < spoken.len() implies !stops_block(
            #[trigger] spoken[i],
            index,
        ) && (starts_block(spoken[i], index) ==> open.contains(index)) by {
            if i < before.events.len() {
                assert(spoken[i] == before.events[i]);
            } else {
                assert(spoken[i] == said[i - before.events.len()]);
            }
        }
    }
    let i = choose|i: int| 0 <= i < all.len() && starts_block(#[trigger] all[i], index);
    if i < spoken.len() {
        assert(all[i] == spoken[i]);
    } else if i < spoken.len() + open.len() {
        assert(all[i] == block_stop(open[i - spoken.len()]));
    } else {
        assert(all[i] == after[i - spoken.len() - open.len()]);
    }
    lemma_stops_close(spoken, open, after, index);
}

/// Where the block events stand among all events.
spec fn places(events: Seq<Event>) -> Seq<int>
    decreases events.len(),
{
    if events.len() == 0 {
        seq![]
    } else {
        let rest = places(events.drop_last());
        if as_block()(events.last()) is Some {
            rest.push(events.len() - 1)
        } else {
            rest
        }
    }
}

proof fn lemma_places(events: Seq<Event>)
    ensures
        places(events).len() == events.filter_map(as_block()).len(),
        forall|k: int|
            0 <= k < places(events).len() ==> 0 <= #[trigger] places(events)[k] < events.len()
                && events[places(events)[k]] == events.filter_map(as_block())[k],
        forall|a: int, b: int|
            0 <= a < b < places(events).len() ==> #[trigger] places(events)[a]
                < #[trigger] places(events)[b],
        forall|i: int|
            0 <= i < events.len() && as_block()(#[trigger] events[i]) is Some ==> places(
                events,
            ).contains(i),
    decreases events.len(),
{
    if events.len() > 0 {
        let rest = events.drop_last();
        lemma_places(rest);
        let all = places(events);
        assert forall|i: int|
            0 <= i < events.len() && as_block()(#[trigger] events[i]) is Some implies all.contains(
            i,
        ) by {
            if i < rest.len() {
                assert(rest[i] == events[i]);
                assert(places(rest).contains(i));
                let k = choose|k: int| 0 <= k < places(rest).len() && places(rest)[k] == i;
                assert(all[k] == i);
            } else {
                assert(all[places(rest).len() as int] == i);
            }
        }
    }
}

/// What is closed once among all events is so among the block events.
proof fn lemma_closed_among_blocks(events: Seq<Event>, index: int)
    requires
        is_closed_once(events, index),
    ensures
        is_closed_once(events.filter_map(as_block()), index),
{
    lemma_places(events);
    let blocks = events.filter_map(as_block());
    let at = places(events);
    let place = choose|place: int| #[trigger] is_only_stop(events, index, place);
    assert(as_block()(events[place]) is Some);
    let s = choose|s: int| 0 <= s < at.len() && at[s] == place;
    assert forall|k: int| 0 <= k < blocks.len() && k != s implies !stops_block(
        #[trigger] blocks[k],
        index,
    ) by {
        assert(blocks[k] == events[at[k]]);
        assert(at[k] != at[s]);
    }
    assert forall|k: int|
        0 <= k < blocks.len() && (starts_block(#[trigger] blocks[k], index) || adds_to_block(
            blocks[k],
            index,
        )) implies k < s by {
        assert(blocks[k] == events[at[k]]);
        assert(at[k] < at[s]);
    }
    assert(blocks[s] == events[at[s]]);
    assert(is_only_stop(blocks, index, s));
}

/// What is closed once among the block events is so among all.
proof fn lemma_closed_among_all(events: Seq<Event>, index: int)
    requires
        is_closed_once(events.filter_map(as_block()), index),
    ensures
        is_closed_once(events, index),
{
    lemma_places(events);
    let blocks = events.filter_map(as_block());
    let at = places(events);
    let s = choose|s: int| #[trigger] is_only_stop(blocks, index, s);
    let place = at[s];
    assert forall|i: int| 0 <= i < events.len() && i != place implies !stops_block(
        #[trigger] events[i],
        index,
    ) by {
        if stops_block(events[i], index) {
            assert(as_block()(events[i]) is Some);
            let k = choose|k: int| 0 <= k < at.len() && at[k] == i;
            assert(stops_block(blocks[k], index));
        }
    }
    assert forall|i: int|
        0 <= i < events.len() && (starts_block(#[trigger] events[i], index) || adds_to_block(
            events[i],
            index,
        )) implies i < place by {
        assert(as_block()(events[i]) is Some);
        let k = choose|k: int| 0 <= k < at.len() && at[k] == i;
        assert(blocks[k] == events[i]);
        assert(k < s);
        assert(at[k] < at[s]);
    }
    assert(stops_block(events[place], index));
    assert(is_only_stop(events, index, place));
}

/// Every block is closed: a block that is opened, and comes to its end at a
/// finish reason, is closed once, behind all that opens it or adds to it, and
/// before the end of the message. (A block that is opened or added to again
/// behind the finish reason that closed it is left out.)
pub proof fn law_blocks_are_closed(
    id: Seq<char>,
    model: Seq<char>,
    text: Seq<char>,
    end: int,
    index: int,
)
    requires
        ends_at(text_choices(text), end, index),
        exists|i: int|
            0 <= i < stream_events(id, model, text).len() && starts_block(
                #[trigger] stream_events(id, model, text)[i],
                index,
            ),
    ensures
        is_closed_once(stream_events(id, model, text), index),
        mark_is_last(fresh(), text) ==> forall|place: int| #[trigger]
            is_only_stop(stream_events(id, model, text), index, place) ==> place < stream_events(
                id,
                model,
                text,
            ).len() - 1 && stream_events(id, model, text).last() == stop_event(),
{
    lemma_event_names();
    lemma_block_kinds();
    lemma_stream_read(id, model, text, as_block());
    let all = stream_events(id, model, text);
    let said = choices_progress(fresh(), text_choices(text)).events;
    let blocks = all.filter_map(as_block());
    let i = choose|i: int| 0 <= i < all.len() && starts_block(#[trigger] all[i], index);
    lemma_places(all);
    lemma_places(said);
    assert(as_block()(all[i]) is Some);
    let k = choose|k: int| 0 <= k < places(all).len() && places(all)[k] == i;
    assert(blocks[k] == all[i]);
    assert(said[places(said)[k]] == blocks[k]);
    lemma_choices_close(text_choices(text), end, index);
    lemma_closed_among_blocks(said, index);
    lemma_closed_among_all(all, index);
    if mark_is_last(fresh(), text) {
        law_stream_is_one_message(id, model, text);
    }
}

// ---------------------------------------------------------------------------
// Tool calls
// ---------------------------------------------------------------------------

/// The tool calls of a choice.
pub open spec fn calls_in() -> spec_fn(Tree) -> Seq<Tree> {
    |choice: Tree|
        match choice.at("delta"@).at("tool_calls"@) {
            Tree::Array(calls) => calls,
            _ => seq![],
        }
}

/// What an event tells of a block with the use of a tool: its index; the id, the
/// name and the input with which it is opened, or the piece of arguments that
/// is added to it.
pub open spec fn as_tool() -> spec_fn(Event) -> Option<
    (Tree, Option<(Tree, Tree, Tree)>, Seq<char>),
> {
    |event: Event|
        if event.name == "content_block_start"@ && event.data.at("content_block"@).at("type"@)
            == Tree::Text("tool_use"@) {
            Some(
                (
                    event.data.at("index"@),
                    Some(
                        (
                            event.data.at("content_block"@).at("id"@),
                            event.data.at("content_block"@).at("name"@),
                            event.data.at("content_block"@).at("input"@),
                        ),
                    ),
                    seq![],
                ),
            )
        } else if event.name == "content_block_delta"@ && event.data.at("delta"@).at("type"@)
            == Tree::Text("input_json_delta"@) {
            match event.data.at("delta"@).at("partial_json"@) {
                Tree::Text(piece) => Some((event.data.at("index"@), None, piece)),
                _ => None,
            }
        } else {
            None
        }
}

/// What a piece of a tool call gives: its name, whatever its arguments are, and
/// then a piece of arguments that is not empty.
pub open spec fn pieces_of() -> spec_fn(Tree) -> Seq<
    (Tree, Option<(Tree, Tree, Tree)>, Seq<char>),
> {
    |call: Tree|
        (if call.get("function"@) is Some && call.at("function"@).get("name"@) is Some {
            seq![
                (
                    Tree::Int(call_index(call)),
                    Some(
                        (
                            if call.get("id"@) is Some {
                                call.at("id"@)
                            } else {
                                Tree::Text(seq![])
                            },
                            call.at("function"@).at("name"@),
                            Tree::Object(Map::empty()),
                        ),
                    ),
                    Seq::<char>::empty(),
                ),
            ]
        } else {
            seq![]
        }) + (match call.at("function"@).at("arguments"@) {
            Tree::Text(piece) => if piece.len() > 0 {
                seq![(Tree::Int(call_index(call)), None, piece)]
            } else {
                seq![]
            },
            _ => seq![],
        })
}

/// What an event opens with the use of a tool: the index of the block, the id
/// and the name.
pub open spec fn told_start() -> spec_fn(Event) -> Option<(Tree, Tree, Tree)> {
    |event: Event|
        if event.name == "content_block_start"@ && event.data.at("content_block"@).at("type"@)
            == Tree::Text("tool_use"@) {
            Some(
                (
                    event.data.at("index"@),
                    event.data.at("content_block"@).at("id"@),
                    event.data.at("content_block"@).at("name"@),
                ),
            )
        } else {
            None
        }
}

/// The index, the id and the name of a piece of a tool call that has a name.
pub open spec fn named_by() -> spec_fn(Tree) -> Seq<(Tree, Tree, Tree)> {
    |call: Tree|
        if call.get("function"@) is Some && call.at("function"@).get("name"@) is Some {
            seq![
                (
                    Tree::Int(call_index(call)),
                    if call.get("id"@) is Some {
                        call.at("id"@)
                    } else {
                        Tree::Text(seq![])
                    },
                    call.at("function"@).at("name"@),
                ),
            ]
        } else {
            seq![]
        }
}

/// The reading finds nothing in text and in the ends of blocks.
spec fn reads_calls<B>(read: spec_fn(Event) -> Option<B>) -> bool {
    &&& reads_blocks(read)
    &&& read(text_block_start()) is None
    &&& forall|text: Seq<char>| read(#[trigger] text_delta(text)) is None
    &&& forall|index: int| read(#[trigger] block_stop(index)) is None
}

proof fn lemma_tool_names()
    ensures
        "tool_use"@ != "text"@,
        "tool_use"@ != "text_delta"@,
        "type"@ != "id"@,
        "type"@ != "name"@,
        "type"@ != "input"@,
        "id"@ != "name"@,
        "id"@ != "input"@,
        "name"@ != "input"@,
        ""@ == Seq::<char>::empty(),
{
    reveal_strlit("tool_use");
    reveal_strlit("text");
    reveal_strlit("text_delta");
    reveal_strlit("type");
    reveal_strlit("id");
    reveal_strlit("name");
    reveal_strlit("input");
    reveal_strlit("");
    assert("tool_use"@.len() == 8);
    assert("text"@.len() == 4);
    assert("text_delta"@.len() == 10);
    assert("type"@.len() == 4);
    assert("id"@.len() == 2);
    assert("name"@.len() == 4);
    assert("input"@.len() == 5);
    assert("type"@[0] != "name"@[0]);
    assert(""@ =~= seq![]);
}

proof fn lemma_calls_read<B>(
    now: Standing,
    choices: Seq<Tree>,
    read: spec_fn(Event) -> Option<B>,
    given: spec_fn(Tree) -> Seq<B>,
)
    requires
        reads_calls(read),
        forall|call: Tree| (#[trigger] call_events()(call)).filter_map(read) == given(call),
    ensures
        choices_progress(now, choices).events.filter_map(read) == choices.flat_map(
            calls_in(),
        ).flat_map(given),
    decreases choices.len(),
{
    if choices.len() == 0 {
        assert(choices.flat_map(calls_in()) =~= seq![]);
        assert(choices.flat_map(calls_in()).flat_map(given) =~= seq![]);
        assert(choices_progress(now, choices).events.filter_map(read) =~= seq![]);
    } else {
        let rest = choices.drop_last();
        let choice = choices.last();
        let before = choices_progress(now, rest);
        lemma_calls_read(now, rest, read, given);
        assert(choices =~= rest + seq![choice]);
        lemma_flat_map_add(rest, seq![choice], calls_in());
        lemma_flat_map_one(choice, calls_in());
        lemma_flat_map_add(rest.flat_map(calls_in()), calls_in()(choice), given);
        let delta = choice.at("delta"@);
        let texts = text_events(before.now.text, delta.at("content"@));
        let calls = calls_events(delta.at("tool_calls"@));
        let finish = finish_events(
            choice_opens(before.now.open, choice),
            choice.at("finish_reason"@),
        );
        lemma_flat_map_then_filter_map(calls_in()(choice), call_events(), read, given);
        if !(delta.at("tool_calls"@) is Array) {
            assert(calls_in()(choice).flat_map(call_events()) =~= seq![]);
        }
        assert(calls == calls_in()(choice).flat_map(call_events()));
        lemma_filter_map_empty(texts, read);
        lemma_filter_map_empty(finish, read);
        lemma_filter_map_add(texts, calls, read);
        lemma_filter_map_add(texts + calls, finish, read);
        lemma_filter_map_add(
            before.events,
            choice_progress(before.now, choice).events,
            read,
        );
        assert(choice_progress(before.now, choice).events.filter_map(read) =~= calls.filter_map(
            read,
        ));
    }
}

proof fn lemma_call_told(call: Tree)
    ensures
        call_events()(call).filter_map(as_tool()) == pieces_of()(call),
        call_events()(call).filter_map(told_start()) == named_by()(call),
{
    lemma_event_names();
    lemma_tool_names();
    let events = call_events()(call);
    match call.get("function"@) {
        Some(function) => {
            let named = if function.get("name"@) is Some {
                seq![call_start(call, function)]
            } else {
                seq![]
            };
            let piece = function.at("arguments"@).as_text();
            let added = if piece is Some && piece->0.len() > 0 {
                seq![call_delta(call, piece->0)]
            } else {
                seq![]
            };
            assert(events =~= named + added);
            lemma_filter_map_add(named, added, as_tool());
            lemma_filter_map_add(named, added, told_start());
            lemma_filter_map_one(call_start(call, function), as_tool());
            lemma_filter_map_one(call_start(call, function), told_start());
            if piece is Some {
                lemma_filter_map_one(call_delta(call, piece->0), as_tool());
                lemma_filter_map_one(call_delta(call, piece->0), told_start());
            }
            assert(events.filter_map(as_tool()) =~= pieces_of()(call));
            assert(events.filter_map(told_start()) =~= named_by()(call));
        },
        None => {
            assert(events.filter_map(as_tool()) =~= pieces_of()(call));
            assert(events.filter_map(told_start()) =~= named_by()(call));
        },
    }
}

proof fn lemma_tool_reads()
    ensures
        reads_calls(as_tool()),
        reads_calls(told_start()),
        forall|call: Tree|
            (#[trigger] call_events()(call)).filter_map(as_tool()) == pieces_of()(call),
        forall|call: Tree|
            (#[trigger] call_events()(call)).filter_map(told_start()) == named_by()(call),
{
    lemma_event_names();
    lemma_tool_names();
    assert forall|call: Tree| (#[trigger] call_events()(call)).filter_map(as_tool()) == pieces_of()(
        call,
    ) by {
        lemma_call_told(call);
    }
    assert forall|call: Tree| (#[trigger] call_events()(call)).filter_map(told_start())
        == named_by()(call) by {
        lemma_call_told(call);
    }
}

/// Every piece of a tool call that has a name opens a block, whatever arguments
/// come with it: the blocks with uses of tools that a stream opens are, in order,
/// those of the named pieces of its calls, each with the index, the id and the
/// name of its piece. No other is opened.
pub proof fn law_named_calls_are_opened(id: Seq<char>, model: Seq<char>, text: Seq<char>)
    ensures
        stream_events(id, model, text).filter_map(told_start()) == text_choices(text).flat_map(
            calls_in(),
        ).flat_map(named_by()),
{
    lemma_event_names();
    lemma_tool_reads();
    lemma_calls_read(fresh(), text_choices(text), told_start(), named_by());
    lemma_stream_read(id, model, text, told_start());
}

/// What a stream tells of its uses of tools is, in order, what the pieces of its
/// calls give: so the pieces of arguments of a call stand behind the opening of
/// its block, where its name came before them or with them.
pub proof fn law_tool_calls_are_told_in_order(id: Seq<char>, model: Seq<char>, text: Seq<char>)
    ensures
        stream_events(id, model, text).filter_map(as_tool()) == text_choices(text).flat_map(
            calls_in(),
        ).flat_map(pieces_of()),
{
    lemma_event_names();
    lemma_tool_reads();
    lemma_calls_read(fresh(), text_choices(text), as_tool(), pieces_of());
    lemma_stream_read(id, model, text, as_tool());
}

/// The index of a tool call's block is one more than the call's own, within the
/// range of an `i32`.
pub proof fn law_call_index_wraps(call: Tree)
    ensures
        i32::MIN <= call_index(call) <= i32::MAX,
        match call.at("index"@) {
            Tree::Int(own) => i64::MIN <= own <= i64::MAX ==> (call_index(call) - own - 1)
                % 0x1_0000_0000 == 0,
            _ => call_index(call) == 1,
        },
{
    match call.at("index"@) {
        Tree::Int(own) => if i64::MIN <= own <= i64::MAX {
            let n = own + 1 + 0x8000_0000;
            vstd::arithmetic::div_mod::lemma_fundamental_div_mod(n, 0x1_0000_0000);
            let q = n / 0x1_0000_0000;
            assert(call_index(call) - own - 1 == -q * 0x1_0000_0000) by (nonlinear_arith)
                requires
                    n == 0x1_0000_0000 * q + n % 0x1_0000_0000,
                    call_index(call) == n % 0x1_0000_0000 - 0x8000_0000,
                    n == own + 1 + 0x8000_0000,
            ;
            vstd::arithmetic::div_mod::lemma_mod_multiples_basic(-q, 0x1_0000_0000);
        },
        _ => {},
    }
}

/// Which blocks a choice opens: the first where it says text, and that of each
/// of its calls that has a name.
pub proof fn law_blocks_opened_by_a_choice(choice: Tree, index: int)
    ensures
        opens_at(choice, index) <==> {
            ||| index == 0 && choice.at("delta"@).at("content"@) is Text
            ||| exists|i: int|
                0 <= i < calls_in()(choice).len() && call_index(#[trigger] calls_in()(choice)[i])
                    == index && calls_in()(choice)[i].at("function"@).get("name"@) is Some
        },
{
    let delta = choice.at("delta"@);
    let alone = text_opens(seq![], delta.at("content"@));
    lemma_opened(seq![], 0, index);
    match delta.at("tool_calls"@) {
        Tree::Array(list) => {
            lemma_calls_open(alone, list, index);
            lemma_opened_by_calls(list, index);
        },
        _ => {},
    }
}

proof fn lemma_opened_by_calls(calls: Seq<Tree>, index: int)
    ensures
        calls_open(seq![], calls).contains(index) <==> exists|i: int|
            0 <= i < calls.len() && call_index(#[trigger] calls[i]) == index && calls[i].at(
                "function"@,
            ).get("name"@) is Some,
    decreases calls.len(),
{
    if calls.len() > 0 {
        let rest = calls.drop_last();
        let last = calls.len() - 1;
        lemma_opened_by_calls(rest, index);
        match opened_by_call(calls[last]) {
            Some(at) => lemma_opened(calls_open(seq![], rest), at, index),
            None => {},
        }
        if exists|i: int|
            0 <= i < rest.len() && call_index(#[trigger] rest[i]) == index && rest[i].at(
                "function"@,
            ).get("name"@) is Some {
            let i = choose|i: int|
                0 <= i < rest.len() && call_index(#[trigger] rest[i]) == index && rest[i].at(
                    "function"@,
                ).get("name"@) is Some;
            assert(calls[i] == rest[i]);
        }
        if exists|i: int|
            0 <= i < calls.len() && call_index(#[trigger] calls[i]) == index && calls[i].at(
                "function"@,
            ).get("name"@) is Some {
            let i = choose|i: int|
                0 <= i < calls.len() && call_index(#[trigger] calls[i]) == index && calls[i].at(
                    "function"@,
                ).get("name"@) is Some;
            if i < last {
                assert(rest[i] == calls[i]);
            } else {
                assert(opened_by_call(calls[last]) == Some(index));
            }
        }
        if calls_open(seq![], calls).contains(index) && !calls_open(seq![], rest).contains(index) {
            assert(opened_by_call(calls[last]) is Some);
            assert(call_index(calls[last]) == index);
        }
    }
}

// ---------------------------------------------------------------------------
// Reasons
// ---------------------------------------------------------------------------

/// The reason that an event tells for the end of the message, and the tokens
/// beside it.
pub open spec fn told_reason() -> spec_fn(Event) -> Option<(Seq<char>, Tree)> {
    |event: Event|
        if event.name == "message_delta"@ {
            match event.data.at("delta"@).at("stop_reason"@) {
                Tree::Text(reason) => Some(
                    (reason, event.data.at("usage"@).at("output_tokens"@)),
                ),
                _ => None,
            }
        } else {
            None
        }
}

/// The reason that a choice gives for its end: the limit, a tool, or that all is
/// said.
pub open spec fn given_reason() -> spec_fn(Tree) -> Option<(Seq<char>, Tree)> {
    |choice: Tree|
        match choice.at("finish_reason"@) {
            Tree::Text(finish) => Some(
                (
                    if finish == "length"@ {
                        "max_tokens"@
                    } else if finish == "tool_calls"@ {
                        "tool_use"@
                    } else {
                        "end_turn"@
                    },
                    Tree::Int(0),
                ),
            ),
            _ => None,
        }
}

/// The reasons that choices give for their ends are told, in order, each behind
/// all else that its choice says; no other is told.
pub proof fn law_reasons_are_told(now: Standing, choices: Seq<Tree>)
    ensures
        choices_progress(now, choices).events.filter_map(told_reason()) == choices.filter_map(
            given_reason(),
        ),
        choices.len() > 0 && choices.last().at("finish_reason"@) is Text ==> choices_progress(
            now,
            choices,
        ).events.len() > 0 && told_reason()(choices_progress(now, choices).events.last())
            == given_reason()(choices.last()),
    decreases choices.len(),
{
    lemma_event_names();
    lemma_reason_names();
    if choices.len() > 0 {
        let rest = choices.drop_last();
        let choice = choices.last();
        let before = choices_progress(now, rest);
        law_reasons_are_told(now, rest);
        let delta = choice.at("delta"@);
        let open = choice_opens(before.now.open, choice);
        let said = said_events(before.now.text, choice);
        let finish = finish_events(open, choice.at("finish_reason"@));
        assert forall|i: int| 0 <= i < said.len() implies told_reason()(#[trigger] said[i]) is None by {
            lemma_said_is_no_reason(before.now.text, choice, i);
        }
        lemma_filter_map_empty(said, told_reason());
        lemma_filter_map_add(said, finish, told_reason());
        lemma_filter_map_add(
            before.events,
            choice_progress(before.now, choice).events,
            told_reason(),
        );
        if choice.at("finish_reason"@) is Text {
            let stops = open.map_values(stop_of());
            let reason = finish.last();
            assert(finish =~= stops + seq![reason]);
            lemma_filter_map_empty(stops, told_reason());
            lemma_filter_map_add(stops, seq![reason], told_reason());
            lemma_filter_map_one(reason, told_reason());
            assert(told_reason()(reason) == given_reason()(choice));
            assert(choices_progress(now, choices).events.last() == reason);
        }
        assert(choices_progress(now, choices).events.filter_map(told_reason())
            =~= choices.filter_map(given_reason()));
    }
}

proof fn lemma_reason_names()
    ensures
        "delta"@ != "usage"@,
        "type"@ != "usage"@,
        "length"@ != "tool_calls"@,
{
    reveal_strlit("delta");
    reveal_strlit("usage");
    reveal_strlit("type");
    reveal_strlit("length");
    reveal_strlit("tool_calls");
    assert("delta"@[0] != "usage"@[0]);
    assert("type"@.len() == 4);
    assert("usage"@.len() == 5);
    assert("length"@.len() == 6);
    assert("tool_calls"@.len() == 10);
}

proof fn lemma_said_is_no_reason(opened: bool, choice: Tree, i: int)
    requires
        0 <= i < said_events(opened, choice).len(),
    ensures
        told_reason()(said_events(opened, choice)[i]) is None,
{
    lemma_event_names();
    let texts = text_events(opened, choice.at("delta"@).at("content"@));
    let calls = calls_events(choice.at("delta"@).at("tool_calls"@));
    let none = |event: Event| event.name != "message_delta"@;
    if i >= texts.len() {
        match choice.at("delta"@).at("tool_calls"@) {
            Tree::Array(list) => {
                assert forall|k: int, j: int|
                    0 <= k < list.len() && 0 <= j < call_events()(list[k]).len() implies none(
                    #[trigger] call_events()(list[k])[j],
                ) by {}
                lemma_flat_map_all(list, call_events(), none);
                assert(none(calls[i - texts.len()]));
            },
            _ => {},
        }
    }
}

// ---------------------------------------------------------------------------
// The lines of a stream
// ---------------------------------------------------------------------------

/// The text is one line.
pub open spec fn is_one_line(line: Seq<char>) -> bool {
    forall|i: int| 0 <= i < line.len() ==> #[trigger] line[i] != '\n'
}

/// The choices in the data of a line.
pub open spec fn choices_told(data: Seq<char>) -> Seq<Tree> {
    match json_parse(data) {
        Some(chunk) => match chunk.at("choices"@) {
            Tree::Array(choices) => choices,
            _ => seq![],
        },
        None => seq![],
    }
}

/// The event that tells the usage in the data of a line, where any tokens are
/// counted there.
pub open spec fn usage_told(data: Seq<char>) -> Seq<Event> {
    match json_parse(data) {
        Some(chunk) => match chunk.at("usage"@).at("total_tokens"@) {
            Tree::Int(total) => if 0 < total <= u64::MAX {
                seq![
                    Event {
                        name: "message_delta"@,
                        data: Tree::Object(
                            map![
                                "type"@ => Tree::Text("message_delta"@),
                                "delta"@ => Tree::Object(Map::empty()),
                                "usage"@ => Tree::Object(
                                    map![
                                        "output_tokens"@ => match chunk.at("usage"@).at(
                                            "completion_tokens"@,
                                        ) {
                                            Tree::Int(n) => if 0 <= n <= u64::MAX {
                                                Tree::Int(n)
                                            } else {
                                                Tree::Int(0)
                                            },
                                            _ => Tree::Int(0),
                                        },
                                    ],
                                ),
                            ],
                        ),
                    },
                ]
            } else {
                seq![]
            },
            _ => seq![],
        },
        None => seq![],
    }
}

proof fn lemma_break_behind(line: Seq<char>, rest: Seq<char>)
    requires
        is_one_line(line),
    ensures
        first_break(line + "\n\n"@ + rest) == Some(line.len() as int),
    decreases line.len(),
{
    reveal_strlit("\n\n");
    let text = line + "\n\n"@ + rest;
    assert("\n\n"@.len() == 2);
    if line.len() == 0 {
        assert(text[0] == '\n' && text[1] == '\n');
    } else {
        assert(text[0] == line[0]);
        assert(text.drop_first() =~= line.drop_first() + "\n\n"@ + rest);
        assert forall|i: int| 0 <= i < line.drop_first().len() implies #[trigger] line.drop_first()[i]
            != '\n' by {
            assert(line.drop_first()[i] == line[i + 1]);
        }
        lemma_break_behind(line.drop_first(), rest);
    }
}

proof fn lemma_one_line(start: Seq<char>, line: Seq<char>)
    requires
        is_one_line(line),
    ensures
        lines_after(start, line) == if start.len() + line.len() == 0 {
            Seq::<Seq<char>>::empty()
        } else {
            seq![start + line]
        },
    decreases line.len(),
{
    if line.len() == 0 {
        assert(start + line =~= start);
    } else {
        assert(line[0] != '\n');
        assert forall|i: int| 0 <= i < line.drop_first().len() implies #[trigger] line.drop_first()[i]
            != '\n' by {
            assert(line.drop_first()[i] == line[i + 1]);
        }
        lemma_one_line(start.push(line[0]), line.drop_first());
        assert(start.push(line[0]) + line.drop_first() =~= start + line);
    }
}

/// The first line of a text with a block of one line in front.
proof fn lemma_front_block(now: Standing, line: Seq<char>, rest: Seq<char>)
    requires
        is_one_line(line),
        line.len() > 0,
    ensures
        text_progress(now, line + "\n\n"@ + rest) == lines_progress(now, seq![line]).then_events(
            text_progress(lines_progress(now, seq![line]).now, rest),
        ),
        text_marked(line + "\n\n"@ + rest) == (lines_marked(seq![line]) || text_marked(rest)),
        text_choices(line + "\n\n"@ + rest) == lines_choices(seq![line]) + text_choices(rest),
        text_rest(line + "\n\n"@ + rest) == text_rest(rest),
{
    reveal_strlit("\n\n");
    assert("\n\n"@.len() == 2);
    let text = line + "\n\n"@ + rest;
    lemma_break_behind(line, rest);
    lemma_one_line(seq![], line);
    assert(seq![] + line =~= line);
    assert(text.take(line.len() as int) =~= line);
    assert(text.skip(line.len() as int + 2) =~= rest);
    assert(lines(line) == seq![line]);
}

proof fn lemma_data_line(data: Seq<char>)
    ensures
        starts_with("data: "@ + data, "data: "@),
        ("data: "@ + data).skip(6) == data,
        ("data: "@ + data).len() > 0,
        is_one_line(data) ==> is_one_line("data: "@ + data),
{
    reveal_strlit("data: ");
    let line = "data: "@ + data;
    assert("data: "@.len() == 6);
    assert(line.subrange(0, 6) =~= "data: "@);
    assert(line.skip(6) =~= data);
    if is_one_line(data) {
        assert forall|i: int| 0 <= i < line.len() implies #[trigger] line[i] != '\n' by {
            if i >= 6 {
                assert(line[i] == data[i - 6]);
            }
        }
    }
}

/// A data line is read whole: its choices are told one after the other, then its
/// usage, and then what follows the line. A data line that is no JSON tells
/// nothing.
pub proof fn law_data_lines_are_read(now: Standing, data: Seq<char>, rest: Seq<char>)
    requires
        is_one_line(data),
        trim(data) != "[DONE]"@,
    ensures
        ({
            let text = "data: "@ + data + "\n\n"@ + rest;
            let said = choices_progress(now, choices_told(data));
            &&& text_progress(now, text).events == said.events + usage_told(data) + text_progress(
                said.now,
                rest,
            ).events
            &&& text_progress(now, text).now == text_progress(said.now, rest).now
            &&& text_choices(text) == choices_told(data) + text_choices(rest)
            &&& text_marked(text) == text_marked(rest)
        }),
{
    let line = "data: "@ + data;
    lemma_data_line(data);
    lemma_front_block(now, line, rest);
    assert(seq![line].drop_first() =~= seq![]);
    let said = data_progress(now, data);
    assert(lines_progress(said.now, seq![line].drop_first()).events =~= seq![]);
    assert(lines_progress(now, seq![line]).events =~= said.events);
    assert(lines_choices(seq![line].drop_first()) =~= seq![]);
    assert(lines_choices(seq![line]) =~= choices_told(data));
    assert(choices_progress(now, choices_told(data)).events + usage_told(data) =~= said.events) by {
        match json_parse(data) {
            Some(chunk) => {},
            None => {},
        }
    }
    assert(!lines_marked(seq![line])) by {
        assert(!is_end_mark(line));
    }
}

/// The end mark ends the message, with the reason that all is said; what comes
/// behind its block is read on.
pub proof fn law_end_mark_ends_the_message(now: Standing, data: Seq<char>, rest: Seq<char>)
    requires
        is_one_line(data),
        trim(data) == "[DONE]"@,
    ensures
        ({
            let text = "data: "@ + data + "\n\n"@ + rest;
            &&& text_marked(text)
            &&& text_progress(now, text).events == seq![
                Event {
                    name: "message_delta"@,
                    data: Tree::Object(
                        map![
                            "type"@ => Tree::Text("message_delta"@),
                            "delta"@ => Tree::Object(
                                map!["stop_reason"@ => Tree::Text("end_turn"@)],
                            ),
                            "usage"@ => Tree::Object(map!["output_tokens"@ => Tree::Int(0)]),
                        ],
                    ),
                },
                Event {
                    name: "message_stop"@,
                    data: Tree::Object(map!["type"@ => Tree::Text("message_stop"@)]),
                },
            ] + text_progress(now, rest).events
            &&& text_choices(text) == text_choices(rest)
        }),
{
    let line = "data: "@ + data;
    lemma_data_line(data);
    lemma_front_block(now, line, rest);
    assert(is_end_mark(line));
    assert(seq![line][0] == line);
    assert(lines_marked(seq![line]));
    assert(lines_choices(seq![line]) + text_choices(rest) =~= text_choices(rest));
}

/// The end mark is `[DONE]`, with or without whitespace around it.
pub proof fn law_end_mark_is_done()
    ensures
        trim("[DONE]"@) == "[DONE]"@,
        trim(" "@ + "[DONE]"@) == "[DONE]"@,
        trim("[DONE]"@ + " "@) == "[DONE]"@,
{
    reveal_strlit("[DONE]");
    reveal_strlit(" ");
    let mark = "[DONE]"@;
    assert(mark.len() == 6);
    assert(" "@.len() == 1);
    assert((" "@ + mark).drop_first() =~= mark);
    assert(trim_start(mark) == mark);
    assert(trim_end(mark) == mark);
    assert((mark + " "@).drop_last() =~= mark);
    assert(trim_start(mark + " "@) == mark + " "@);
    assert(trim_start(" "@ + mark) == mark);
    assert(trim_end(mark + " "@) == mark);
}

/// A line that is no data line tells nothing.
pub proof fn law_other_lines_tell_nothing(now: Standing, line: Seq<char>, rest: Seq<char>)
    requires
        is_one_line(line),
        line.len() < 6 || line.take(6) != "data: "@,
    ensures
        text_progress(now, line + "\n\n"@ + rest) == text_progress(now, rest),
        text_marked(line + "\n\n"@ + rest) == text_marked(rest),
        text_choices(line + "\n\n"@ + rest) == text_choices(rest),
{
    reveal_strlit("data: ");
    reveal_strlit("\n\n");
    assert("data: "@.len() == 6);
    assert("\n\n"@.len() == 2);
    let after = text_progress(now, rest);
    assert(Seq::<Event>::empty() + after.events =~= after.events);
    assert(Seq::<Tree>::empty() + text_choices(rest) =~= text_choices(rest));
    if line.len() == 0 {
        let text = line + "\n\n"@ + rest;
        lemma_break_behind(line, rest);
        lemma_one_line(seq![], line);
        assert(text.take(0) =~= line);
        assert(text.skip(2) =~= rest);
        assert(lines(line) =~= seq![]);
    } else {
        lemma_front_block(now, line, rest);
        assert(!starts_with(line, "data: "@)) by {
            if starts_with(line, "data: "@) {
                assert(line.subrange(0, 6) =~= line.take(6));
            }
        }
        assert(seq![line].drop_first() =~= seq![]);
        assert(lines_progress(now, seq![line]) == lines_progress(now, seq![line].drop_first()));
        assert(lines_choices(seq![line]) == lines_choices(seq![line].drop_first()));
        assert(!lines_marked(seq![line])) by {
            assert(!is_end_mark(line));
        }
    }
}

proof fn lemma_two_lines(start: Seq<char>, first: Seq<char>, behind: Seq<char>)
    requires
        is_one_line(first),
    ensures
        lines_after(start, first + "\n"@ + behind) == seq![
            crate::text::without_return(start + first),
        ] + lines_after(seq![], behind),
    decreases first.len(),
{
    reveal_strlit("\n");
    assert("\n"@.len() == 1);
    let text = first + "\n"@ + behind;
    if first.len() == 0 {
        assert(text[0] == '\n');
        assert(text.drop_first() =~= behind);
        assert(start + first =~= start);
    } else {
        assert(text[0] == first[0]);
        assert(text.drop_first() =~= first.drop_first() + "\n"@ + behind);
        assert forall|i: int| 0 <= i < first.drop_first().len() implies #[trigger] first.drop_first()[i]
            != '\n' by {
            assert(first.drop_first()[i] == first[i + 1]);
        }
        lemma_two_lines(start.push(first[0]), first.drop_first(), behind);
        assert(start.push(first[0]) + first.drop_first() =~= start + first);
    }
}

proof fn lemma_break_behind_two(first: Seq<char>, second: Seq<char>, rest: Seq<char>)
    requires
        is_one_line(first),
        is_one_line(second),
        second.len() > 0,
    ensures
        first_break(first + "\n"@ + second + "\n\n"@ + rest) == Some(
            first.len() as int + 1 + second.len() as int,
        ),
    decreases first.len(),
{
    reveal_strlit("\n");
    reveal_strlit("\n\n");
    assert("\n"@.len() == 1);
    assert("\n\n"@.len() == 2);
    let text = first + "\n"@ + second + "\n\n"@ + rest;
    if first.len() == 0 {
        assert(text[1] == second[0]);
        assert(text.drop_first() =~= second + "\n\n"@ + rest);
        lemma_break_behind(second, rest);
    } else {
        assert(text[0] == first[0]);
        assert(text.drop_first() =~= first.drop_first() + "\n"@ + second + "\n\n"@ + rest);
        assert forall|i: int| 0 <= i < first.drop_first().len() implies #[trigger] first.drop_first()[i]
            != '\n' by {
            assert(first.drop_first()[i] == first[i + 1]);
        }
        lemma_break_behind_two(first.drop_first(), second, rest);
    }
}

/// The lines of one block are read as if each were a block of its own, up to the
/// end mark, and with or without carriage returns.
pub proof fn law_lines_of_a_block(
    now: Standing,
    first: Seq<char>,
    second: Seq<char>,
    rest: Seq<char>,
)
    requires
        is_one_line(first),
        is_one_line(second),
        first.len() > 0,
        second.len() > 0,
        first.last() != '\r',
        !is_end_mark(first),
    ensures
        text_progress(now, first + "\n"@ + second + "\n\n"@ + rest) == text_progress(
            now,
            first + "\n\n"@ + (second + "\n\n"@ + rest),
        ),
        text_progress(now, first + "\r\n"@ + second + "\n\n"@ + rest) == text_progress(
            now,
            first + "\n\n"@ + (second + "\n\n"@ + rest),
        ),
{
    reveal_strlit("\n");
    reveal_strlit("\r\n");
    reveal_strlit("\n\n");
    assert("\n"@.len() == 1);
    assert("\r\n"@.len() == 2);
    assert("\n\n"@.len() == 2);
    let returned = first.push('\r');
    lemma_front_block(now, first, second + "\n\n"@ + rest);
    let said = lines_progress(now, seq![first]);
    lemma_front_block(said.now, second, rest);
    lemma_block_of_two(now, first, second, rest, first);
    assert forall|i: int| 0 <= i < returned.len() implies #[trigger] returned[i] != '\n' by {
        if i < first.len() {
            assert(returned[i] == first[i]);
        }
    }
    assert(returned.drop_last() =~= first);
    lemma_block_of_two(now, returned, second, rest, first);
    assert(first + "\r\n"@ + second + "\n\n"@ + rest =~= returned + "\n"@ + second + "\n\n"@
        + rest);
    let then = lines_progress(said.now, seq![second]);
    let last = text_progress(then.now, rest);
    assert((said.events + then.events) + last.events =~= said.events + (then.events
        + last.events));
}

proof fn lemma_block_of_two(
    now: Standing,
    first: Seq<char>,
    second: Seq<char>,
    rest: Seq<char>,
    read: Seq<char>,
)
    requires
        is_one_line(first),
        is_one_line(second),
        second.len() > 0,
        read == crate::text::without_return(first),
        !is_end_mark(read),
    ensures
        ({
            let said = lines_progress(now, seq![read]);
            let then = lines_progress(said.now, seq![second]);
            let last = text_progress(then.now, rest);
            let text = first + "\n"@ + second + "\n\n"@ + rest;
            &&& text_progress(now, text).events == (said.events + then.events) + last.events
            &&& text_progress(now, text).now == last.now
        }),
{
    reveal_strlit("\n");
    reveal_strlit("\n\n");
    assert("\n"@.len() == 1);
    assert("\n\n"@.len() == 2);
    let text = first + "\n"@ + second + "\n\n"@ + rest;
    let at = first.len() as int + 1 + second.len() as int;
    lemma_break_behind_two(first, second, rest);
    assert(text.take(at) =~= first + "\n"@ + second);
    assert(text.skip(at + 2) =~= rest);
    lemma_two_lines(seq![], first, second);
    lemma_one_line(seq![], second);
    assert(seq![] + first =~= first);
    assert(seq![] + second =~= second);
    let list = lines(first + "\n"@ + second);
    assert(list =~= seq![read, second]);
    assert(list.drop_first() =~= seq![second]);
    assert(seq![read].drop_first() =~= seq![]);
    let said = lines_progress(now, seq![read]);
    let then = lines_progress(said.now, seq![second]);
    if starts_with(read, "data: "@) {
        let own = data_progress(now, read.skip(6));
        assert(lines_progress(own.now, seq![read].drop_first()).events =~= seq![]);
        assert(said.events =~= own.events);
        assert(lines_progress(now, list).events =~= said.events + then.events);
    } else {
        assert(lines_progress(now, seq![read]) == lines_progress(now, seq![read].drop_first()));
        assert(said.events =~= seq![]);
        assert(lines_progress(now, list).events =~= said.events + then.events);
    }
    assert(lines_progress(now, list).now == then.now);
}

// ---------------------------------------------------------------------------
// The form of the events
// ---------------------------------------------------------------------------

/// The test passes whatever is told.
spec fn passes_all(test: spec_fn(Event) -> bool) -> bool {
    &&& forall|index: int, block: Tree| test(#[trigger] block_start(index, block))
    &&& forall|index: int, delta: Tree| test(#[trigger] block_delta(index, delta))
    &&& forall|index: int| test(#[trigger] block_stop(index))
    &&& forall|delta: Map<Seq<char>, Tree>, tokens: int|
        test(#[trigger] message_delta(delta, tokens))
    &&& test(stop_event())
}

spec fn all_pass(events: Seq<Event>, test: spec_fn(Event) -> bool) -> bool {
    forall|i: int| 0 <= i < events.len() ==> test(#[trigger] events[i])
}

proof fn lemma_choices_pass(now: Standing, choices: Seq<Tree>, test: spec_fn(Event) -> bool)
    requires
        passes_all(test),
    ensures
        all_pass(choices_progress(now, choices).events, test),
    decreases choices.len(),
{
    if choices.len() > 0 {
        let before = choices_progress(now, choices.drop_last());
        let choice = choices.last();
        lemma_choices_pass(now, choices.drop_last(), test);
        let texts = text_events(before.now.text, choice.at("delta"@).at("content"@));
        let calls = calls_events(choice.at("delta"@).at("tool_calls"@));
        let finish = finish_events(
            choice_opens(before.now.open, choice),
            choice.at("finish_reason"@),
        );
        match choice.at("delta"@).at("tool_calls"@).as_array() {
            Some(list) => lemma_flat_map_all(list, call_events(), test),
            None => {},
        }
        assert(all_pass(texts, test));
        assert(all_pass(calls, test));
        assert(all_pass(finish, test));
        let all = choices_progress(now, choices).events;
        assert(all =~= before.events + texts + calls + finish);
    }
}

proof fn lemma_lines_pass(now: Standing, list: Seq<Seq<char>>, test: spec_fn(Event) -> bool)
    requires
        passes_all(test),
    ensures
        all_pass(lines_progress(now, list).events, test),
    decreases list.len(),
{
    if list.len() > 0 {
        if !starts_with(list[0], "data: "@) {
            lemma_lines_pass(now, list.drop_first(), test);
        } else if !is_end_mark(list[0]) {
            let data = list[0].skip(6);
            let said = data_progress(now, data);
            match json_parse(data) {
                Some(chunk) => lemma_choices_pass(now, chunk_choices(chunk), test),
                None => {},
            }
            assert(all_pass(said.events, test));
            lemma_lines_pass(said.now, list.drop_first(), test);
        }
    }
}

proof fn lemma_text_pass(now: Standing, text: Seq<char>, test: spec_fn(Event) -> bool)
    requires
        passes_all(test),
    ensures
        all_pass(text_progress(now, text).events, test),
    decreases text.len(),
{
    lemma_first_break(text);
    match first_break(text) {
        Some(at) => {
            let list = lines(text.take(at));
            let said = lines_progress(now, list);
            lemma_lines_pass(now, list, test);
            lemma_text_pass(said.now, text.skip(at + 2), test);
        },
        None => {},
    }
}

/// The data of an event names the event, and the event is one of six.
pub open spec fn names_itself() -> spec_fn(Event) -> bool {
    |event: Event|
        {
            &&& event.data.at("type"@) == Tree::Text(event.name)
            &&& event.name == "message_start"@ || event.name == "content_block_start"@ || event.name
                == "content_block_delta"@ || event.name == "content_block_stop"@ || event.name
                == "message_delta"@ || event.name == "message_stop"@
        }
}

/// Every event of a stream is named in its data, and is one of the six that there
/// are.
pub proof fn law_events_name_themselves(id: Seq<char>, model: Seq<char>, text: Seq<char>, i: int)
    requires
        0 <= i < stream_events(id, model, text).len(),
    ensures
        names_itself()(stream_events(id, model, text)[i]),
{
    lemma_event_names();
    lemma_reason_names();
    reveal_strlit("message");
    reveal_strlit("type");
    reveal_strlit("content_block");
    assert("message"@.len() != "type"@.len());
    assert("content_block"@.len() != "type"@.len());
    lemma_text_pass(fresh(), text, names_itself());
    let told = text_progress(fresh(), text).events;
    if 0 < i <= told.len() {
        assert(stream_events(id, model, text)[i] == told[i - 1]);
    }
}

/// A message is opened with its id and its model, by the assistant, empty and
/// without cost; and ended by an event that says no more.
pub proof fn law_message_frame(id: Seq<char>, model: Seq<char>, text: Seq<char>)
    ensures
        ({
            let message = stream_events(id, model, text)[0].data.at("message"@);
            &&& message.at("id"@) == Tree::Text(id)
            &&& message.at("type"@) == Tree::Text("message"@)
            &&& message.at("role"@) == Tree::Text("assistant"@)
            &&& message.at("model"@) == Tree::Text(model)
            &&& message.at("content"@) == Tree::Array(seq![])
            &&& message.get("stop_reason"@) == Some(Tree::Null)
            &&& message.at("usage"@).at("input_tokens"@) == Tree::Int(0)
            &&& message.at("usage"@).at("output_tokens"@) == Tree::Int(0)
        }),
        !text_marked(text) ==> stream_events(id, model, text).last().data == Tree::Object(
            map!["type"@ => Tree::Text("message_stop"@)],
        ),
{
    lemma_frame_names();
}

proof fn lemma_frame_names()
    ensures
        "message"@.len() == 7,
        "id"@.len() == 2,
        "type"@.len() == 4,
        "role"@.len() == 4,
        "model"@.len() == 5,
        "content"@.len() == 7,
        "stop_reason"@.len() == 11,
        "usage"@.len() == 5,
        "input_tokens"@.len() == 12,
        "output_tokens"@.len() == 13,
        "message"@ != "content"@,
        "type"@ != "role"@,
        "model"@ != "usage"@,
{
    reveal_strlit("message");
    reveal_strlit("id");
    reveal_strlit("type");
    reveal_strlit("role");
    reveal_strlit("model");
    reveal_strlit("content");
    reveal_strlit("stop_reason");
    reveal_strlit("usage");
    reveal_strlit("input_tokens");
    reveal_strlit("output_tokens");
    assert("message"@.len() == 7);
    assert("id"@.len() == 2);
    assert("type"@.len() == 4);
    assert("role"@.len() == 4);
    assert("model"@.len() == 5);
    assert("content"@.len() == 7);
    assert("stop_reason"@.len() == 11);
    assert("usage"@.len() == 5);
    assert("input_tokens"@.len() == 12);
    assert("output_tokens"@.len() == 13);
    assert("message"@[0] != "content"@[0]);
    assert("type"@[0] != "role"@[0]);
    assert("model"@[0] != "usage"@[0]);
}

/// The text block is the first, and is opened as an empty text; the events that
/// close a block say no more than which.
pub proof fn law_text_block_is_the_first(index: int)
    ensures
        text_block_start().data.at("index"@) == Tree::Int(0),
        text_block_start().data.at("content_block"@) == Tree::Object(
            map!["type"@ => Tree::Text("text"@), "text"@ => Tree::Text(Seq::<char>::empty())],
        ),
        block_stop(index).data == Tree::Object(
            map!["type"@ => Tree::Text("content_block_stop"@), "index"@ => Tree::Int(index)],
        ),
{
    lemma_event_names();
    lemma_tool_names();
}

/// An event is sent as two lines, its name and its data, and an empty one.
pub proof fn law_frames(event: Event)
    ensures
        frame_text(event) == "event: "@ + (event.name + ("\n"@ + ("data: "@ + (json_text(
            event.data,
        ) + ("\n"@ + "\n"@))))),
{
    reveal_strlit("\ndata: ");
    reveal_strlit("\n");
    reveal_strlit("data: ");
    reveal_strlit("\n\n");
    assert("\ndata: "@ =~= "\n"@ + "data: "@);
    assert("\n\n"@ =~= "\n"@ + "\n"@);
    assert(frame_text(event) =~= "event: "@ + (event.name + ("\n"@ + ("data: "@ + (json_text(
        event.data,
    ) + ("\n"@ + "\n"@))))));
}

// ---------------------------------------------------------------------------
// What stands behind the opening of a block
// ---------------------------------------------------------------------------

/// The block at that index is opened by one of the events.
spec fn is_started(events: Seq<Event>, index: int) -> bool {
    exists|i: int| 0 <= i < events.len() && starts_block(#[trigger] events[i], index)
}

/// The event closes the block at that index, or adds text to it.
pub open spec fn needs_start(event: Event, index: int) -> bool {
    ||| stops_block(event, index)
    ||| adds_to_block(event, index) && event.data.at("delta"@).at("type"@) == Tree::Text(
        "text_delta"@,
    )
}

/// Each event that needs its block opened stands behind the opening.
spec fn all_follow(events: Seq<Event>) -> bool {
    forall|j: int, index: int|
        0 <= j < events.len() && #[trigger] needs_start(events[j], index) ==> is_started(
            events.take(j),
            index,
        )
}

proof fn lemma_started_more(a: Seq<Event>, b: Seq<Event>, index: int)
    requires
        is_started(a, index),
        a.len() <= b.len(),
        b.take(a.len() as int) == a,
    ensures
        is_started(b, index),
{
    let i = choose|i: int| 0 <= i < a.len() && starts_block(#[trigger] a[i], index);
    assert(b.take(a.len() as int)[i] == b[i]);
    assert(starts_block(b[i], index));
}

/// One more event leaves all in order, where its block is opened if it needs to
/// be.
proof fn lemma_follow_push(events: Seq<Event>, event: Event)
    requires
        all_follow(events),
        forall|index: int| #[trigger] needs_start(event, index) ==> is_started(events, index),
    ensures
        all_follow(events.push(event)),
{
    let all = events.push(event);
    assert forall|j: int, index: int|
        0 <= j < all.len() && #[trigger] needs_start(all[j], index) implies is_started(
        all.take(j),
        index,
    ) by {
        assert(all.take(j) =~= events.take(j));
        if j < events.len() {
            assert(needs_start(events[j], index));
        } else {
            assert(events.take(j) =~= events);
        }
    }
}

proof fn lemma_follow_calls(events: Seq<Event>, calls: Seq<Event>)
    requires
        all_follow(events),
        forall|i: int, index: int|
            0 <= i < calls.len() ==> !#[trigger] needs_start(calls[i], index),
    ensures
        all_follow(events + calls),
    decreases calls.len(),
{
    if calls.len() == 0 {
        assert(events + calls =~= events);
    } else {
        let rest = calls.drop_last();
        assert forall|i: int, index: int| 0 <= i < rest.len() implies !#[trigger] needs_start(
            rest[i],
            index,
        ) by {
            assert(!needs_start(calls[i], index));
        }
        lemma_follow_calls(events, rest);
        assert forall|index: int| #[trigger] needs_start(calls.last(), index) implies is_started(
            events + rest,
            index,
        ) by {
            assert(!needs_start(calls[calls.len() - 1], index));
        }
        lemma_follow_push(events + rest, calls.last());
        assert((events + rest).push(calls.last()) =~= events + calls);
    }
}

proof fn lemma_follow_stops(events: Seq<Event>, open: Seq<int>)
    requires
        all_follow(events),
        forall|index: int| #[trigger] open.contains(index) ==> is_started(events, index),
    ensures
        all_follow(events + open.map_values(stop_of())),
    decreases open.len(),
{
    lemma_block_kinds();
    lemma_event_names();
    let stops = open.map_values(stop_of());
    if open.len() == 0 {
        assert(events + stops =~= events);
    } else {
        let rest = open.drop_last();
        assert forall|index: int| #[trigger] rest.contains(index) implies is_started(
            events,
            index,
        ) by {
            let i = choose|i: int| 0 <= i < rest.len() && rest[i] == index;
            assert(open[i] == index);
            assert(open.contains(index));
        }
        lemma_follow_stops(events, rest);
        let before = events + rest.map_values(stop_of());
        assert(open.contains(open[open.len() - 1]));
        assert(before.take(events.len() as int) =~= events);
        lemma_started_more(events, before, open.last());
        assert forall|index: int| #[trigger] needs_start(
            block_stop(open.last()),
            index,
        ) implies is_started(before, index) by {
            assert(stops_block(block_stop(open.last()), index));
        }
        lemma_follow_push(before, block_stop(open.last()));
        assert(before.push(block_stop(open.last())) =~= events + stops);
    }
}

/// What calls open is opened by their events.
proof fn lemma_calls_start(calls: Seq<Tree>, index: int)
    requires
        calls_open(seq![], calls).contains(index),
    ensures
        is_started(calls.flat_map(call_events()), index),
{
    lemma_block_kinds();
    lemma_opened_by_calls(calls, index);
    let i = choose|i: int|
        0 <= i < calls.len() && call_index(#[trigger] calls[i]) == index && calls[i].at(
            "function"@,
        ).get("name"@) is Some;
    let call = calls[i];
    let function = call.get("function"@)->0;
    assert(call_events()(call)[0] == call_start(call, function));
    crate::seqs::lemma_flat_map_has(calls, call_events(), i, 0);
    let events = calls.flat_map(call_events());
    let k = choose|k: int| 0 <= k < events.len() && events[k] == call_start(call, function);
    assert(starts_block(events[k], index));
}

proof fn lemma_calls_need_nothing(list: Seq<Tree>)
    ensures
        forall|i: int, index: int|
            0 <= i < list.flat_map(call_events()).len() ==> !#[trigger] needs_start(
                list.flat_map(call_events())[i],
                index,
            ),
{
    lemma_block_kinds();
    lemma_event_names();
    let free = |event: Event| forall|index: int| !#[trigger] needs_start(event, index);
    assert forall|k: int, j: int|
        0 <= k < list.len() && 0 <= j < call_events()(list[k]).len() implies free(
        #[trigger] call_events()(list[k])[j],
    ) by {}
    lemma_flat_map_all(list, call_events(), free);
    assert forall|i: int, index: int|
        0 <= i < list.flat_map(call_events()).len() implies !#[trigger] needs_start(
        list.flat_map(call_events())[i],
        index,
    ) by {
        assert(free(list.flat_map(call_events())[i]));
    }
}

proof fn lemma_choices_follow(choices: Seq<Tree>)
    ensures
        all_follow(choices_progress(fresh(), choices).events),
        choices_progress(fresh(), choices).now.text ==> is_started(
            choices_progress(fresh(), choices).events,
            0,
        ),
        forall|index: int| #[trigger]
            choices_progress(fresh(), choices).now.open.contains(index) ==> is_started(
                choices_progress(fresh(), choices).events,
                index,
            ),
    decreases choices.len(),
{
    if choices.len() > 0 {
        lemma_block_kinds();
        lemma_event_names();
        let rest = choices.drop_last();
        let choice = choices.last();
        lemma_choices_follow(rest);
        let before = choices_progress(fresh(), rest);
        let delta = choice.at("delta"@);
        let texts = text_events(before.now.text, delta.at("content"@));
        let calls = calls_events(delta.at("tool_calls"@));
        let open = choice_opens(before.now.open, choice);
        let texted = before.events + texts;
        match delta.at("content"@).as_text() {
            Some(text) => {
                let opened = if before.now.text {
                    before.events
                } else {
                    before.events.push(text_block_start())
                };
                if !before.now.text {
                    assert forall|index: int| #[trigger] needs_start(
                        text_block_start(),
                        index,
                    ) implies is_started(before.events, index) by {}
                    lemma_follow_push(before.events, text_block_start());
                    assert(starts_block(opened[before.events.len() as int], 0));
                }
                assert(is_started(opened, 0));
                assert forall|index: int| #[trigger] needs_start(
                    text_delta(text),
                    index,
                ) implies is_started(opened, index) by {}
                lemma_follow_push(opened, text_delta(text));
                assert(opened.push(text_delta(text)) =~= texted);
                assert(texted.take(opened.len() as int) =~= opened);
                lemma_started_more(opened, texted, 0);
            },
            None => {
                assert(texted =~= before.events);
            },
        }
        match delta.at("tool_calls"@).as_array() {
            Some(list) => {
                lemma_calls_need_nothing(list);
            },
            None => {},
        }
        lemma_follow_calls(texted, calls);
        let said = texted + calls;
        assert(said.take(texted.len() as int) =~= texted);
        assert(texted.take(before.events.len() as int) =~= before.events);
        assert forall|index: int| #[trigger] open.contains(index) implies is_started(
            said,
            index,
        ) by {
            lemma_choice_opens(before.now.open, choice, index);
            if before.now.open.contains(index) {
                lemma_started_more(before.events, texted, index);
                lemma_started_more(texted, said, index);
            } else {
                law_blocks_opened_by_a_choice(choice, index);
                if delta.at("content"@) is Text && index == 0 {
                    lemma_started_more(texted, said, 0);
                } else {
                    let list = delta.at("tool_calls"@)->Array_0;
                    lemma_opened_by_calls(list, index);
                    assert(calls_in()(choice) == list);
                    lemma_calls_start(list, index);
                    let k = choose|k: int|
                        0 <= k < calls.len() && starts_block(#[trigger] calls[k], index);
                    assert(said[texted.len() + k] == calls[k]);
                    assert(starts_block(said[texted.len() + k], index));
                }
            }
        }
        lemma_follow_stops(said, open);
        let all = choices_progress(fresh(), choices).events;
        match choice.at("finish_reason"@).as_text() {
            Some(reason) => {
                let stopped = said + open.map_values(stop_of());
                let last = finish_events(open, choice.at("finish_reason"@)).last();
                assert forall|index: int| #[trigger] needs_start(last, index) implies is_started(
                    stopped,
                    index,
                ) by {}
                lemma_follow_push(stopped, last);
                assert(stopped.push(last) =~= all);
            },
            None => {
                assert(said =~= all);
            },
        }
        assert(all.take(said.len() as int) =~= said);
        if choices_progress(fresh(), choices).now.text {
            if delta.at("content"@) is Text {
                lemma_started_more(texted, said, 0);
            } else {
                lemma_started_more(before.events, texted, 0);
                lemma_started_more(texted, said, 0);
            }
            lemma_started_more(said, all, 0);
        }
        assert forall|index: int| #[trigger]
            choices_progress(fresh(), choices).now.open.contains(index) implies is_started(
            all,
            index,
        ) by {
            assert(open.contains(index));
            lemma_started_more(said, all, index);
        }
    }
}

/// No block is closed, and no text is added to one, that was not opened before.
pub proof fn law_blocks_are_opened_first(
    id: Seq<char>,
    model: Seq<char>,
    text: Seq<char>,
    j: int,
    index: int,
)
    requires
        0 <= j < stream_events(id, model, text).len(),
        needs_start(stream_events(id, model, text)[j], index),
    ensures
        exists|i: int| 0 <= i < j && starts_block(#[trigger] stream_events(id, model, text)[i], index),
{
    lemma_event_names();
    lemma_block_kinds();
    lemma_stream_read(id, model, text, as_block());
    let all = stream_events(id, model, text);
    let said = choices_progress(fresh(), text_choices(text)).events;
    let blocks = all.filter_map(as_block());
    lemma_choices_follow(text_choices(text));
    lemma_places(all);
    lemma_places(said);
    assert(as_block()(all[j]) is Some);
    let k = choose|k: int| 0 <= k < places(all).len() && places(all)[k] == j;
    assert(blocks[k] == all[j]);
    let at = places(said)[k];
    assert(said[at] == blocks[k]);
    assert(needs_start(said[at], index));
    let n = choose|n: int|
        0 <= n < said.take(at).len() && starts_block(#[trigger] said.take(at)[n], index);
    assert(said.take(at)[n] == said[n]);
    assert(as_block()(said[n]) is Some);
    let m = choose|m: int| 0 <= m < places(said).len() && places(said)[m] == n;
    assert(m < k) by {
        if m >= k {
            assert(places(said)[k] <= places(said)[m]);
        }
    }
    let i = places(all)[m];
    assert(places(all)[m] < places(all)[k]);
    assert(all[i] == blocks[m]);
    assert(starts_block(all[i], index));
}

// ---------------------------------------------------------------------------
// The order within a choice
// ---------------------------------------------------------------------------

/// How late an event comes within its choice: text first, then the uses of tools,
/// then the ends of blocks, and then what is told of the whole message.
pub open spec fn rank(event: Event) -> int {
    if event.name == "content_block_start"@ {
        if event.data.at("content_block"@).at("type"@) == Tree::Text("text"@) {
            0
        } else {
            1
        }
    } else if event.name == "content_block_delta"@ {
        if event.data.at("delta"@).at("type"@) == Tree::Text("text_delta"@) {
            0
        } else {
            1
        }
    } else if event.name == "content_block_stop"@ {
        2
    } else {
        3
    }
}

proof fn lemma_ranks()
    ensures
        rank(text_block_start()) == 0,
        forall|text: Seq<char>| rank(#[trigger] text_delta(text)) == 0,
        forall|call: Tree, function: Tree| rank(#[trigger] call_start(call, function)) == 1,
        forall|call: Tree, piece: Seq<char>| rank(#[trigger] call_delta(call, piece)) == 1,
        forall|index: int| rank(#[trigger] block_stop(index)) == 2,
        forall|delta: Map<Seq<char>, Tree>, tokens: int|
            rank(#[trigger] message_delta(delta, tokens)) == 3,
{
    lemma_event_names();
    lemma_tool_names();
}

proof fn lemma_calls_rank(calls: Tree)
    ensures
        forall|i: int| 0 <= i < calls_events(calls).len() ==> rank(#[trigger] calls_events(calls)[i])
            == 1,
{
    lemma_ranks();
    let one = |event: Event| rank(event) == 1;
    match calls.as_array() {
        Some(list) => {
            assert forall|k: int, j: int|
                0 <= k < list.len() && 0 <= j < call_events()(list[k]).len() implies one(
                #[trigger] call_events()(list[k])[j],
            ) by {}
            lemma_flat_map_all(list, call_events(), one);
            assert forall|i: int| 0 <= i < calls_events(calls).len() implies rank(
                #[trigger] calls_events(calls)[i],
            ) == 1 by {
                assert(one(list.flat_map(call_events())[i]));
            }
        },
        None => {},
    }
}

/// Choices are told one after the other. A choice tells its text, then its calls,
/// then the ends of blocks, and then the reason of its end; without a reason it
/// ends nothing.
pub proof fn law_choices_are_told_in_order(now: Standing, choices: Seq<Tree>, choice: Tree)
    ensures
        ({
            let before = choices_progress(now, choices);
            let after = choices_progress(now, choices.push(choice));
            let told = after.events.skip(before.events.len() as int);
            &&& before.events.len() <= after.events.len()
            &&& after.events.take(before.events.len() as int) == before.events
            &&& forall|i: int, j: int|
                0 <= i < j < told.len() ==> rank(#[trigger] told[i]) <= rank(#[trigger] told[j])
            &&& !(choice.at("finish_reason"@) is Text) ==> forall|i: int|
                0 <= i < told.len() ==> rank(#[trigger] told[i]) <= 1
            &&& choice.at("finish_reason"@) is Text ==> after.now.open.len() == 0
        }),
        choices_progress(now, seq![]).events.len() == 0,
{
    lemma_ranks();
    let before = choices_progress(now, choices);
    let after = choices_progress(now, choices.push(choice));
    assert(choices.push(choice).drop_last() =~= choices);
    let told = after.events.skip(before.events.len() as int);
    let delta = choice.at("delta"@);
    let texts = text_events(before.now.text, delta.at("content"@));
    let calls = calls_events(delta.at("tool_calls"@));
    let open = choice_opens(before.now.open, choice);
    let finish = finish_events(open, choice.at("finish_reason"@));
    lemma_calls_rank(delta.at("tool_calls"@));
    assert(told =~= texts + calls + finish);
    assert(after.events.take(before.events.len() as int) =~= before.events);
    assert forall|i: int| 0 <= i < told.len() implies rank(#[trigger] told[i]) == if i
        < texts.len() {
        0int
    } else if i < texts.len() + calls.len() {
        1
    } else if i < texts.len() + calls.len() + open.len() {
        2
    } else {
        3
    } by {
        if i < texts.len() {
            assert(told[i] == texts[i]);
        } else if i < texts.len() + calls.len() {
            assert(told[i] == calls[i - texts.len()]);
        } else if i < texts.len() + calls.len() + open.len() {
            assert(told[i] == block_stop(open[i - texts.len() - calls.len()]));
        } else {
            assert(told[i] == finish[i - texts.len() - calls.len()]);
        }
    }
}

/// An event is of a kind that a stream has: the start or the end of the message,
/// something of the whole message, the opening of a text or of the use of a tool,
/// a piece of either, or the end of a block.
pub open spec fn is_of_a_kind() -> spec_fn(Event) -> bool {
    |event: Event|
        {
            ||| event.name == "message_start"@
            ||| event.name == "message_stop"@
            ||| event.name == "message_delta"@
            ||| event.name == "content_block_stop"@
            ||| event.name == "content_block_start"@ && (event.data.at("content_block"@).at(
                "type"@,
            ) == Tree::Text("text"@) || event.data.at("content_block"@).at("type"@) == Tree::Text(
                "tool_use"@,
            ))
            ||| event.name == "content_block_delta"@ && (event.data.at("delta"@).at("type"@)
                == Tree::Text("text_delta"@) || event.data.at("delta"@).at("type"@) == Tree::Text(
                "input_json_delta"@,
            ))
        }
}

/// An event of a choice: of a kind that a stream has, and within the message.
spec fn fits() -> spec_fn(Event) -> bool {
    |event: Event|
        {
            &&& is_of_a_kind()(event)
            &&& event.name == "message_delta"@ ==> told_reason()(event) is Some
            &&& event.name != "message_start"@
            &&& event.name != "message_stop"@
        }
}

proof fn lemma_made_fits()
    ensures
        fits()(text_block_start()),
        forall|text: Seq<char>| fits()(#[trigger] text_delta(text)),
        forall|call: Tree, function: Tree| fits()(#[trigger] call_start(call, function)),
        forall|call: Tree, piece: Seq<char>| fits()(#[trigger] call_delta(call, piece)),
        forall|index: int| fits()(#[trigger] block_stop(index)),
        forall|reason: Seq<char>| fits()(#[trigger] reason_event(reason)),
{
    lemma_event_names();
    lemma_inner_names();
    lemma_tool_names();
    lemma_reason_names();
}

proof fn lemma_choice_fits(now: Standing, choice: Tree)
    ensures
        all_pass(choice_progress(now, choice).events, fits()),
{
    lemma_made_fits();
    let delta = choice.at("delta"@);
    let texts = text_events(now.text, delta.at("content"@));
    let calls = calls_events(delta.at("tool_calls"@));
    let open = choice_opens(now.open, choice);
    let finish = finish_events(open, choice.at("finish_reason"@));
    assert(all_pass(texts, fits()));
    match delta.at("tool_calls"@).as_array() {
        Some(list) => {
            assert forall|n: int, j: int|
                0 <= n < list.len() && 0 <= j < call_events()(list[n]).len() implies fits()(
                #[trigger] call_events()(list[n])[j],
            ) by {}
            lemma_flat_map_all(list, call_events(), fits());
        },
        None => {},
    }
    assert(all_pass(calls, fits()));
    assert(all_pass(finish, fits())) by {
        assert forall|n: int| 0 <= n < finish.len() implies fits()(#[trigger] finish[n]) by {
            if n < open.len() {
                assert(finish[n] == block_stop(open[n]));
            }
        }
    }
    assert(choice_progress(now, choice).events =~= texts + calls + finish);
}

/// What choices tell is of the kinds that a stream has, and nothing else.
pub proof fn law_choices_tell_no_more(now: Standing, choices: Seq<Tree>, i: int)
    requires
        0 <= i < choices_progress(now, choices).events.len(),
    ensures
        is_of_a_kind()(choices_progress(now, choices).events[i]),
        choices_progress(now, choices).events[i].name == "message_delta"@ ==> told_reason()(
            choices_progress(now, choices).events[i],
        ) is Some,
        choices_progress(now, choices).events[i].name != "message_start"@
            && choices_progress(now, choices).events[i].name != "message_stop"@,
    decreases choices.len(),
{
    if choices.len() > 0 {
        let before = choices_progress(now, choices.drop_last());
        let told = choice_progress(before.now, choices.last()).events;
        if i < before.events.len() {
            law_choices_tell_no_more(now, choices.drop_last(), i);
        } else {
            lemma_choice_fits(before.now, choices.last());
            assert(choices_progress(now, choices).events[i] == told[i - before.events.len()]);
            assert(fits()(told[i - before.events.len()]));
        }
    }
}

/// The events of a list are seen one by one, by name and data.
pub proof fn law_events_are_seen(events: Seq<StreamEvent>, i: int)
    requires
        0 <= i < events.len(),
    ensures
        event_views(events).len() == events.len(),
        event_views(events)[i].name == events[i].name@,
        event_views(events)[i].data == events[i].data@,
{
}

} // verus!
