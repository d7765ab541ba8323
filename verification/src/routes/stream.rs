//! The translation of a streamed reply: the chunks of the OpenAI chat format
//! become the events of the Anthropic messages format, while they come in.

use vstd::prelude::*;
use vstd::string::*;
use vstd::utf8::{decode_utf8, valid_utf8};

use crate::json::{json_parse, json_text, lemma_trees, trees, Json, Object, Tree};
use crate::routes::translate::{
    is_message_id, new_message_id, stop_reason, stop_reason_from, token_count,
};
use crate::text::{
    chars_of, lines, part_of, same_text, split_lines, starts_with, strip_prefix, trim, trimmed,
    views,
};

verus! {

// ---------------------------------------------------------------------------
// Events
// ---------------------------------------------------------------------------

/// An event of a stream: its name and its data.
pub struct Event {
    pub name: Seq<char>,
    pub data: Tree,
}

/// An event of a stream: its name and its data.
pub struct StreamEvent {
    pub name: String,
    pub data: Json,
}

impl View for StreamEvent {
    type V = Event;

    open spec fn view(&self) -> Event {
        Event { name: self.name@, data: self.data@ }
    }
}

/// The events of a list.
pub open spec fn event_views(events: Seq<StreamEvent>) -> Seq<Event> {
    events.map_values(|event: StreamEvent| event@)
}

/// An event as it is sent.
pub open spec fn frame_text(event: Event) -> Seq<char> {
    "event: "@ + event.name + "\ndata: "@ + json_text(event.data) + "\n\n"@
}

/// The event that opens a message.
pub open spec fn start_event(id: Seq<char>, model: Seq<char>) -> Event {
    Event {
        name: "message_start"@,
        data: Tree::Object(
            map![
                "type"@ => Tree::Text("message_start"@),
                "message"@ => Tree::Object(
                    map![
                        "id"@ => Tree::Text(id),
                        "type"@ => Tree::Text("message"@),
                        "role"@ => Tree::Text("assistant"@),
                        "model"@ => Tree::Text(model),
                        "content"@ => Tree::Array(seq![]),
                        "stop_reason"@ => Tree::Null,
                        "usage"@ => Tree::Object(
                            map!["input_tokens"@ => Tree::Int(0), "output_tokens"@ => Tree::Int(0)],
                        ),
                    ],
                ),
            ],
        ),
    }
}

/// The event that ends a message.
pub open spec fn stop_event() -> Event {
    Event {
        name: "message_stop"@,
        data: Tree::Object(map!["type"@ => Tree::Text("message_stop"@)]),
    }
}

/// The event that tells something of the whole message.
pub open spec fn message_delta(delta: Map<Seq<char>, Tree>, output_tokens: int) -> Event {
    Event {
        name: "message_delta"@,
        data: Tree::Object(
            map![
                "type"@ => Tree::Text("message_delta"@),
                "delta"@ => Tree::Object(delta),
                "usage"@ => Tree::Object(map!["output_tokens"@ => Tree::Int(output_tokens)]),
            ],
        ),
    }
}

/// The event that tells why the message ended.
pub open spec fn reason_event(reason: Seq<char>) -> Event {
    message_delta(map!["stop_reason"@ => Tree::Text(reason)], 0)
}

/// The event that opens a content block.
pub open spec fn block_start(index: int, block: Tree) -> Event {
    Event {
        name: "content_block_start"@,
        data: Tree::Object(
            map![
                "type"@ => Tree::Text("content_block_start"@),
                "index"@ => Tree::Int(index),
                "content_block"@ => block,
            ],
        ),
    }
}

/// The event that adds to a content block.
pub open spec fn block_delta(index: int, delta: Tree) -> Event {
    Event {
        name: "content_block_delta"@,
        data: Tree::Object(
            map![
                "type"@ => Tree::Text("content_block_delta"@),
                "index"@ => Tree::Int(index),
                "delta"@ => delta,
            ],
        ),
    }
}

/// The event that ends a content block.
pub open spec fn block_stop(index: int) -> Event {
    Event {
        name: "content_block_stop"@,
        data: Tree::Object(
            map!["type"@ => Tree::Text("content_block_stop"@), "index"@ => Tree::Int(index)],
        ),
    }
}

// ---------------------------------------------------------------------------
// What becomes of a chunk
// ---------------------------------------------------------------------------

/// What a stream has come to: whether its text block was ever opened, and which
/// blocks are open, in the order in which they were opened.
#[verifier::ext_equal]
pub struct Standing {
    pub text: bool,
    pub open: Seq<int>,
}

/// A stream at its start.
pub open spec fn fresh() -> Standing {
    Standing { text: false, open: seq![] }
}

/// The open blocks with one more, where it is not open already.
pub open spec fn with_open(open: Seq<int>, index: int) -> Seq<int> {
    if open.contains(index) {
        open
    } else {
        open.push(index)
    }
}

/// The open blocks after a piece of text, where this content is one.
pub open spec fn text_opens(open: Seq<int>, content: Tree) -> Seq<int> {
    if content.as_text() is Some {
        with_open(open, 0)
    } else {
        open
    }
}

/// The event that opens the text block.
pub open spec fn text_block_start() -> Event {
    block_start(
        0,
        Tree::Object(map!["type"@ => Tree::Text("text"@), "text"@ => Tree::Text(""@)]),
    )
}

/// The event that adds to the text block.
pub open spec fn text_delta(text: Seq<char>) -> Event {
    block_delta(
        0,
        Tree::Object(map!["type"@ => Tree::Text("text_delta"@), "text"@ => Tree::Text(text)]),
    )
}

/// The events of a piece of text; the first of a stream opens the text block.
pub open spec fn text_events(opened: bool, content: Tree) -> Seq<Event> {
    match content.as_text() {
        Some(text) => if opened {
            seq![text_delta(text)]
        } else {
            seq![text_block_start(), text_delta(text)]
        },
        None => seq![],
    }
}

/// An integer as an `i32` holds it, with its wrap.
pub open spec fn wrap_i32(n: int) -> int {
    (n + 0x8000_0000) % 0x1_0000_0000 - 0x8000_0000
}

/// The block index of a tool call: one after its own, since text is at zero.
pub open spec fn call_index(call: Tree) -> int {
    wrap_i32(
        match call.at("index"@).as_i64() {
            Some(n) => n as int,
            None => 0,
        } + 1,
    )
}

/// The event that opens a tool call's block.
pub open spec fn call_start(call: Tree, function: Tree) -> Event {
    block_start(
        call_index(call),
        Tree::Object(
            map![
                "type"@ => Tree::Text("tool_use"@),
                "id"@ => match call.get("id"@) {
                    Some(id) => id,
                    None => Tree::Text(""@),
                },
                "name"@ => function.at("name"@),
                "input"@ => Tree::Object(Map::empty()),
            ],
        ),
    )
}

/// The event that adds to a tool call's arguments.
pub open spec fn call_delta(call: Tree, arguments: Seq<char>) -> Event {
    block_delta(
        call_index(call),
        Tree::Object(
            map![
                "type"@ => Tree::Text("input_json_delta"@),
                "partial_json"@ => Tree::Text(arguments),
            ],
        ),
    )
}

/// The events of a piece of a tool call: one for its name, one for arguments.
pub open spec fn call_events() -> spec_fn(Tree) -> Seq<Event> {
    |call: Tree|
        match call.get("function"@) {
            Some(function) => (if function.get("name"@) is Some {
                seq![call_start(call, function)]
            } else {
                seq![]
            }) + (match function.at("arguments"@).as_text() {
                Some(arguments) => if arguments.len() > 0 {
                    seq![call_delta(call, arguments)]
                } else {
                    seq![]
                },
                None => seq![],
            }),
            None => seq![],
        }
}

/// The events of the tool calls of a chunk's choice.
pub open spec fn calls_events(calls: Tree) -> Seq<Event> {
    match calls.as_array() {
        Some(list) => list.flat_map(call_events()),
        None => seq![],
    }
}

/// The block that a piece of a tool call opens: its own, where the call is named.
pub open spec fn opened_by_call(call: Tree) -> Option<int> {
    match call.get("function"@) {
        Some(function) => if function.get("name"@) is Some {
            Some(call_index(call))
        } else {
            None
        },
        None => None,
    }
}

/// The open blocks after a piece of a tool call.
pub open spec fn call_opens(open: Seq<int>, call: Tree) -> Seq<int> {
    match opened_by_call(call) {
        Some(index) => with_open(open, index),
        None => open,
    }
}

/// The open blocks after these pieces of tool calls.
pub open spec fn calls_open(open: Seq<int>, calls: Seq<Tree>) -> Seq<int>
    decreases calls.len(),
{
    if calls.len() == 0 {
        open
    } else {
        call_opens(calls_open(open, calls.drop_last()), calls.last())
    }
}

/// The open blocks after the tool calls of a chunk's choice.
pub open spec fn listed_calls_open(open: Seq<int>, calls: Tree) -> Seq<int> {
    match calls.as_array() {
        Some(list) => calls_open(open, list),
        None => open,
    }
}

/// The end of the block at an index.
pub open spec fn stop_of() -> spec_fn(int) -> Event {
    |index: int| block_stop(index)
}

/// The events of a finish reason: the end of each open block, and why the
/// message ended.
pub open spec fn finish_events(open: Seq<int>, finish: Tree) -> Seq<Event> {
    match finish.as_text() {
        Some(reason) => open.map_values(stop_of()).push(
            reason_event(stop_reason(Some(reason))),
        ),
        None => seq![],
    }
}

/// What a stream has come to, and the events that told it.
#[verifier::ext_equal]
pub struct Progress {
    pub now: Standing,
    pub events: Seq<Event>,
}

impl Progress {
    /// More progress after this.
    pub open spec fn then_events(self, next: Progress) -> Progress {
        Progress { now: next.now, events: self.events + next.events }
    }
}

/// The blocks that are open once a choice has said its text and its calls.
pub open spec fn choice_opens(open: Seq<int>, choice: Tree) -> Seq<int> {
    let delta = choice.at("delta"@);
    listed_calls_open(text_opens(open, delta.at("content"@)), delta.at("tool_calls"@))
}

/// The events of a choice's text and calls.
pub open spec fn said_events(opened: bool, choice: Tree) -> Seq<Event> {
    let delta = choice.at("delta"@);
    text_events(opened, delta.at("content"@)) + calls_events(delta.at("tool_calls"@))
}

/// What one choice of a chunk adds: its text, its calls, and its end, which
/// closes all blocks.
pub open spec fn choice_progress(now: Standing, choice: Tree) -> Progress {
    let open = choice_opens(now.open, choice);
    let finish = choice.at("finish_reason"@);
    Progress {
        now: Standing {
            text: now.text || choice.at("delta"@).at("content"@).as_text() is Some,
            open: if finish.as_text() is Some {
                seq![]
            } else {
                open
            },
        },
        events: said_events(now.text, choice) + finish_events(open, finish),
    }
}

/// What the choices of a chunk add.
pub open spec fn choices_progress(now: Standing, choices: Seq<Tree>) -> Progress
    decreases choices.len(),
{
    if choices.len() == 0 {
        Progress { now, events: seq![] }
    } else {
        let before = choices_progress(now, choices.drop_last());
        before.then_events(choice_progress(before.now, choices.last()))
    }
}

/// The event of a chunk's usage, where it counts any tokens.
pub open spec fn usage_events(chunk: Tree) -> Seq<Event> {
    match chunk.get("usage"@) {
        Some(usage) => if token_count(usage.at("total_tokens"@)) > 0 {
            seq![message_delta(Map::empty(), token_count(usage.at("completion_tokens"@)))]
        } else {
            seq![]
        },
        None => seq![],
    }
}

/// The choices of a chunk.
pub open spec fn chunk_choices(chunk: Tree) -> Seq<Tree> {
    match chunk.at("choices"@).as_array() {
        Some(list) => list,
        None => seq![],
    }
}

/// What a chunk adds: its choices, then its usage.
pub open spec fn chunk_progress(now: Standing, chunk: Tree) -> Progress {
    let choices = choices_progress(now, chunk_choices(chunk));
    Progress { now: choices.now, events: choices.events + usage_events(chunk) }
}

// ---------------------------------------------------------------------------
// What becomes of the text of a stream
// ---------------------------------------------------------------------------

/// What the data of a line adds, where it is the text of a chunk.
pub open spec fn data_progress(now: Standing, data: Seq<char>) -> Progress {
    match json_parse(data) {
        Some(chunk) => chunk_progress(now, chunk),
        None => Progress { now, events: seq![] },
    }
}

/// The events of the mark that ends a stream.
pub open spec fn done_events() -> Seq<Event> {
    seq![reason_event("end_turn"@), stop_event()]
}

/// The line is the mark that ends a stream.
pub open spec fn is_end_mark(line: Seq<char>) -> bool {
    starts_with(line, "data: "@) && trim(line.skip(6)) == "[DONE]"@
}

/// The end mark is among the lines.
pub open spec fn lines_marked(list: Seq<Seq<char>>) -> bool {
    exists|i: int| 0 <= i < list.len() && is_end_mark(#[trigger] list[i])
}

/// What a list of lines adds; the end mark ends the list.
pub open spec fn lines_progress(now: Standing, list: Seq<Seq<char>>) -> Progress
    decreases list.len(),
{
    if list.len() == 0 {
        Progress { now, events: seq![] }
    } else if !starts_with(list[0], "data: "@) {
        lines_progress(now, list.drop_first())
    } else if is_end_mark(list[0]) {
        Progress { now, events: done_events() }
    } else {
        let said = data_progress(now, list[0].skip(6));
        said.then_events(lines_progress(said.now, list.drop_first()))
    }
}

/// The place of the first empty line: two line feeds in a row.
pub open spec fn first_break(text: Seq<char>) -> Option<int>
    decreases text.len(),
{
    if text.len() < 2 {
        None
    } else if text[0] == '\n' && text[1] == '\n' {
        Some(0)
    } else {
        match first_break(text.drop_first()) {
            Some(at) => Some(at + 1),
            None => None,
        }
    }
}

/// What the complete blocks of a text add. A block ends at an empty line.
pub open spec fn text_progress(now: Standing, text: Seq<char>) -> Progress
    decreases text.len(),
    via text_progress_decreases
{
    match first_break(text) {
        Some(at) => {
            let said = lines_progress(now, lines(text.take(at)));
            said.then_events(text_progress(said.now, text.skip(at + 2)))
        },
        None => Progress { now, events: seq![] },
    }
}

#[via_fn]
proof fn text_progress_decreases(now: Standing, text: Seq<char>) {
    lemma_first_break(text);
}

/// The end mark is in a complete block of a text.
pub open spec fn text_marked(text: Seq<char>) -> bool
    decreases text.len(),
    via text_marked_decreases
{
    match first_break(text) {
        Some(at) => lines_marked(lines(text.take(at))) || text_marked(text.skip(at + 2)),
        None => false,
    }
}

#[via_fn]
proof fn text_marked_decreases(text: Seq<char>) {
    lemma_first_break(text);
}

/// What is left of a text after its complete blocks.
pub open spec fn text_rest(text: Seq<char>) -> Seq<char>
    decreases text.len(),
    via text_rest_decreases
{
    match first_break(text) {
        Some(at) => text_rest(text.skip(at + 2)),
        None => text,
    }
}

#[via_fn]
proof fn text_rest_decreases(text: Seq<char>) {
    lemma_first_break(text);
}

/// The place found is that of an empty line, and the first one.
pub proof fn lemma_first_break(text: Seq<char>)
    ensures
        match first_break(text) {
            Some(at) => {
                &&& 0 <= at < text.len() - 1
                &&& text[at] == '\n' && text[at + 1] == '\n'
                &&& forall|j: int| 0 <= j < at ==> !(#[trigger] text[j] == '\n' && text[j + 1] == '\n')
            },
            None => forall|j: int|
                0 <= j < text.len() - 1 ==> !(#[trigger] text[j] == '\n' && text[j + 1] == '\n'),
        },
    decreases text.len(),
{
    if text.len() >= 2 && !(text[0] == '\n' && text[1] == '\n') {
        let rest = text.drop_first();
        lemma_first_break(rest);
        match first_break(rest) {
            Some(at) => {
                assert forall|j: int| 0 <= j < at + 1 implies !(#[trigger] text[j] == '\n' && text[j
                    + 1] == '\n') by {
                    if j > 0 {
                        assert(rest[j - 1] == text[j]);
                    }
                }
            },
            None => {
                assert forall|j: int| 0 <= j < text.len() - 1 implies !(#[trigger] text[j] == '\n'
                    && text[j + 1] == '\n') by {
                    if j > 0 {
                        assert(rest[j - 1] == text[j]);
                    }
                }
            },
        }
    }
}

// ---------------------------------------------------------------------------
// The blocks of a stream
// ---------------------------------------------------------------------------

/// The blocks of a stream: whether the text block was ever opened, and which
/// are open.
#[derive(Debug)]
pub struct Blocks {
    pub text: bool,
    pub open: Vec<i32>,
}

/// The indices of a list.
pub open spec fn indices(open: Seq<i32>) -> Seq<int> {
    open.map_values(|index: i32| index as int)
}

impl View for Blocks {
    type V = Standing;

    open spec fn view(&self) -> Standing {
        Standing { text: self.text, open: indices(self.open@) }
    }
}

impl Blocks {
    /// The blocks of a stream at its start.
    pub fn new() -> (blocks: Blocks)
        ensures
            blocks@ == fresh(),
    {
        let blocks: Blocks = Blocks { text: false, open: Vec::new() };
        proof {
            assert(blocks@ =~= fresh());
        }
        blocks
    }

    /// Opens a block, where it is not open already.
    fn open_block(&mut self, index: i32)
        ensures
            final(self)@.open == with_open(old(self)@.open, index as int),
            final(self).text == old(self).text,
    {
        let count: usize = self.open.len();
        let mut i: usize = 0;
        while i < count
            invariant
                i <= count,
                count == self.open.len(),
                *self == *old(self),
                forall|j: int| 0 <= j < i ==> self.open@[j] != index,
            decreases count - i,
        {
            if self.open[i] == index {
                proof {
                    assert(self@.open[i as int] == index as int);
                }
                return;
            }
            i = i + 1;
        }
        self.open.push(index);
        proof {
            let before = old(self)@.open;
            assert(!before.contains(index as int)) by {
                if before.contains(index as int) {
                    let j = choose|j: int| 0 <= j < before.len() && before[j] == index as int;
                    assert(old(self).open@[j] == index);
                }
            }
            assert(self@.open =~= before.push(index as int));
        }
    }
}

// ---------------------------------------------------------------------------
// Making events
// ---------------------------------------------------------------------------

fn make_event(name: &str, data: Object) -> (event: StreamEvent)
    ensures
        event@ == (Event { name: name@, data: Tree::Object(data@) }),
{
    StreamEvent { name: name.to_owned(), data: Json::Object(data) }
}

fn push_event(events: &mut Vec<StreamEvent>, event: StreamEvent)
    ensures
        event_views(final(events)@) == event_views(old(events)@).push(event@),
{
    let ghost before = event_views(events@);
    events.push(event);
    proof {
        assert(event_views(events@) =~= before.push(event@));
    }
}

/// The event that opens a message.
fn make_start(id: &str, model: &str) -> (event: StreamEvent)
    ensures
        event@ == start_event(id@, model@),
{
    let mut usage: Object = Object::new();
    usage.insert("input_tokens", Json::unsigned(0));
    usage.insert("output_tokens", Json::unsigned(0));
    let content: Vec<Json> = Vec::new();
    let mut message: Object = Object::new();
    message.insert("id", Json::text(id));
    message.insert("type", Json::text("message"));
    message.insert("role", Json::text("assistant"));
    message.insert("model", Json::text(model));
    message.insert("content", Json::Array(content));
    message.insert("stop_reason", Json::Null);
    message.insert("usage", Json::Object(usage));
    let mut data: Object = Object::new();
    data.insert("type", Json::text("message_start"));
    data.insert("message", Json::Object(message));
    make_event("message_start", data)
}

/// The event that ends a message.
fn make_stop() -> (event: StreamEvent)
    ensures
        event@ == stop_event(),
{
    let mut data: Object = Object::new();
    data.insert("type", Json::text("message_stop"));
    make_event("message_stop", data)
}

fn make_message_delta(delta: Object, output_tokens: u64) -> (event: StreamEvent)
    ensures
        event@ == message_delta(delta@, output_tokens as int),
{
    let mut usage: Object = Object::new();
    usage.insert("output_tokens", Json::unsigned(output_tokens));
    let mut data: Object = Object::new();
    data.insert("type", Json::text("message_delta"));
    data.insert("delta", Json::Object(delta));
    data.insert("usage", Json::Object(usage));
    make_event("message_delta", data)
}

fn make_reason(reason: &str) -> (event: StreamEvent)
    ensures
        event@ == reason_event(reason@),
{
    let mut delta: Object = Object::new();
    delta.insert("stop_reason", Json::text(reason));
    make_message_delta(delta, 0)
}

fn make_block_start(index: i32, block: Object) -> (event: StreamEvent)
    ensures
        event@ == block_start(index as int, Tree::Object(block@)),
{
    let mut data: Object = Object::new();
    data.insert("type", Json::text("content_block_start"));
    data.insert("index", Json::signed(index as i64));
    data.insert("content_block", Json::Object(block));
    make_event("content_block_start", data)
}

fn make_block_delta(index: i32, delta: Object) -> (event: StreamEvent)
    ensures
        event@ == block_delta(index as int, Tree::Object(delta@)),
{
    let mut data: Object = Object::new();
    data.insert("type", Json::text("content_block_delta"));
    data.insert("index", Json::signed(index as i64));
    data.insert("delta", Json::Object(delta));
    make_event("content_block_delta", data)
}

fn make_block_stop(index: i32) -> (event: StreamEvent)
    ensures
        event@ == block_stop(index as int),
{
    let mut data: Object = Object::new();
    data.insert("type", Json::text("content_block_stop"));
    data.insert("index", Json::signed(index as i64));
    make_event("content_block_stop", data)
}

// ---------------------------------------------------------------------------
// Translating a chunk
// ---------------------------------------------------------------------------

fn add_text_events(events: &mut Vec<StreamEvent>, open: bool, text: &str)
    ensures
        event_views(final(events)@) == event_views(old(events)@) + text_events(
            open,
            Tree::Text(text@),
        ),
{
    let ghost before = event_views(events@);
    if !open {
        let mut block: Object = Object::new();
        block.insert("type", Json::text("text"));
        block.insert("text", Json::text(""));
        push_event(events, make_block_start(0, block));
    }
    let mut delta: Object = Object::new();
    delta.insert("type", Json::text("text_delta"));
    delta.insert("text", Json::text(text));
    push_event(events, make_block_delta(0, delta));
    proof {
        assert(event_views(events@) =~= before + text_events(open, Tree::Text(text@)));
    }
}

/// An integer as an `i32` holds it.
fn wrapped(n: i64) -> (small: i32)
    ensures
        small == wrap_i32(n as int),
{
    let shifted: i128 = n as i128 + 0x1_0000_0000_8000_0000;
    let small: i128 = shifted % 0x1_0000_0000 - 0x8000_0000;
    proof {
        vstd::arithmetic::div_mod::lemma_mod_multiples_vanish(
            0x1_0000_0000,
            n as int + 0x8000_0000,
            0x1_0000_0000,
        );
    }
    small as i32
}

/// The block index of a tool call.
fn index_of_call(call: &Json) -> (index: i32)
    ensures
        index == call_index(call@),
{
    let own: i64 = match call.i64_at("index") {
        Some(n) => n,
        None => 0,
    };
    let place: i32 = wrapped(own);
    if place == i32::MAX {
        i32::MIN
    } else {
        place + 1
    }
}

/// The events of a piece of a tool call, put behind those of a list.
pub fn add_call_events(events: &mut Vec<StreamEvent>, blocks: &mut Blocks, call: &Json)
    ensures
        event_views(final(events)@) == event_views(old(events)@) + call_events()(call@),
        final(blocks)@.open == call_opens(old(blocks)@.open, call@),
        final(blocks).text == old(blocks).text,
{
    let ghost before = event_views(events@);
    if let Some(function) = call.get("function") {
        let index: i32 = index_of_call(call);
        if function.get("name").is_some() {
            let id: Json = match call.get("id") {
                Some(id) => id.copy(),
                None => Json::text(""),
            };
            let mut block: Object = Object::new();
            block.insert("type", Json::text("tool_use"));
            block.insert("id", id);
            block.insert("name", function.at("name"));
            block.insert("input", Json::Object(Object::new()));
            push_event(events, make_block_start(index, block));
            blocks.open_block(index);
        }
        if let Some(arguments) = function.text_at("arguments") {
            if !arguments.is_empty() {
                let mut delta: Object = Object::new();
                delta.insert("type", Json::text("input_json_delta"));
                delta.insert("partial_json", Json::text(arguments));
                push_event(events, make_block_delta(index, delta));
            }
        }
    }
    proof {
        assert(event_views(events@) =~= before + call_events()(call@));
    }
}

fn add_calls_events(events: &mut Vec<StreamEvent>, blocks: &mut Blocks, calls: &Vec<Json>)
    ensures
        event_views(final(events)@) == event_views(old(events)@) + trees(calls@).flat_map(
            call_events(),
        ),
        final(blocks)@.open == calls_open(old(blocks)@.open, trees(calls@)),
        final(blocks).text == old(blocks).text,
{
    let ghost before = event_views(events@);
    let ghost open = blocks@.open;
    let count: usize = calls.len();
    let mut i: usize = 0;
    proof {
        lemma_trees(calls@);
        assert(before =~= before + trees(calls@).take(0).flat_map(call_events()));
    }
    while i < count
        invariant
            i <= count,
            count == calls.len(),
            trees(calls@).len() == count,
            forall|j: int| 0 <= j < count ==> #[trigger] trees(calls@)[j] == calls@[j]@,
            event_views(events@) == before + trees(calls@).take(i as int).flat_map(call_events()),
            blocks@.open == calls_open(open, trees(calls@).take(i as int)),
            blocks.text == old(blocks).text,
        decreases count - i,
    {
        proof {
            trees(calls@).lemma_flat_map_take_append(call_events(), i as int);
            assert(trees(calls@).take(i + 1).drop_last() =~= trees(calls@).take(i as int));
        }
        add_call_events(events, blocks, &calls[i]);
        proof {
            assert(event_views(events@) =~= before + trees(calls@).take(i + 1).flat_map(
                call_events(),
            ));
        }
        i = i + 1;
    }
    proof {
        assert(trees(calls@).take(count as int) =~= trees(calls@));
    }
}

/// Closes all open blocks.
fn add_stops(events: &mut Vec<StreamEvent>, blocks: &mut Blocks)
    ensures
        event_views(final(events)@) == event_views(old(events)@) + old(blocks)@.open.map_values(
            stop_of(),
        ),
        final(blocks)@.open == Seq::<int>::empty(),
        final(blocks).text == old(blocks).text,
{
    let ghost before = event_views(events@);
    let ghost stops = blocks@.open.map_values(stop_of());
    let count: usize = blocks.open.len();
    let mut i: usize = 0;
    proof {
        assert(before =~= before + stops.take(0));
    }
    while i < count
        invariant
            i <= count,
            count == blocks.open.len(),
            *blocks == *old(blocks),
            stops == blocks@.open.map_values(stop_of()),
            event_views(events@) == before + stops.take(i as int),
        decreases count - i,
    {
        push_event(events, make_block_stop(blocks.open[i]));
        proof {
            assert(stops[i as int] == block_stop(blocks.open@[i as int] as int));
            assert(event_views(events@) =~= before + stops.take(i + 1));
        }
        i = i + 1;
    }
    proof {
        assert(stops.take(count as int) =~= stops);
    }
    blocks.open = Vec::new();
    proof {
        assert(blocks@.open =~= seq![]);
    }
}

/// What one choice of a chunk adds.
pub fn add_choice_events(events: &mut Vec<StreamEvent>, blocks: &mut Blocks, choice: &Json)
    ensures
        final(blocks)@ == choice_progress(old(blocks)@, choice@).now,
        event_views(final(events)@) == event_views(old(events)@) + choice_progress(
            old(blocks)@,
            choice@,
        ).events,
{
    let ghost before = event_views(events@);
    let ghost was = blocks@;
    let ghost delta_tree = choice@.at("delta"@);
    if let Some(delta) = choice.get("delta") {
        if let Some(text) = delta.text_at("content") {
            add_text_events(events, blocks.text, text);
            blocks.open_block(0);
            blocks.text = true;
        }
        proof {
            assert(event_views(events@) =~= before + text_events(
                was.text,
                delta_tree.at("content"@),
            ));
        }
        let ghost texted = event_views(events@);
        if let Some(calls) = delta.array_at("tool_calls") {
            add_calls_events(events, blocks, calls);
        }
        proof {
            assert(event_views(events@) =~= texted + calls_events(delta_tree.at("tool_calls"@)));
        }
    }
    proof {
        assert(event_views(events@) =~= before + said_events(was.text, choice@));
        assert(blocks@.open == choice_opens(was.open, choice@));
    }
    let ghost said = event_views(events@);
    let ghost open = blocks@.open;
    if let Some(finish) = choice.text_at("finish_reason") {
        add_stops(events, blocks);
        push_event(events, make_reason(stop_reason_from(Some(finish))));
    }
    proof {
        assert(event_views(events@) =~= said + finish_events(open, choice@.at("finish_reason"@)));
        assert(event_views(events@) =~= before + choice_progress(was, choice@).events);
        assert(blocks@ =~= choice_progress(was, choice@).now);
    }
}

/// What a chunk adds.
pub fn add_chunk_events(events: &mut Vec<StreamEvent>, blocks: &mut Blocks, chunk: &Json)
    ensures
        final(blocks)@ == chunk_progress(old(blocks)@, chunk@).now,
        event_views(final(events)@) == event_views(old(events)@) + chunk_progress(
            old(blocks)@,
            chunk@,
        ).events,
{
    let ghost before = event_views(events@);
    let ghost was = blocks@;
    if let Some(choices) = chunk.array_at("choices") {
        let count: usize = choices.len();
        let mut i: usize = 0;
        proof {
            lemma_trees(choices@);
            assert(before =~= before + choices_progress(was, trees(choices@).take(0)).events);
        }
        while i < count
            invariant
                i <= count,
                count == choices.len(),
                trees(choices@).len() == count,
                forall|j: int| 0 <= j < count ==> #[trigger] trees(choices@)[j] == choices@[j]@,
                blocks@ == choices_progress(was, trees(choices@).take(i as int)).now,
                event_views(events@) == before + choices_progress(
                    was,
                    trees(choices@).take(i as int),
                ).events,
            decreases count - i,
        {
            proof {
                assert(trees(choices@).take(i + 1).drop_last() =~= trees(choices@).take(i as int));
            }
            add_choice_events(events, blocks, &choices[i]);
            proof {
                assert(event_views(events@) =~= before + choices_progress(
                    was,
                    trees(choices@).take(i + 1),
                ).events);
            }
            i = i + 1;
        }
        proof {
            assert(trees(choices@).take(count as int) =~= trees(choices@));
        }
    } else {
        proof {
            assert(before =~= before + Seq::<Event>::empty());
        }
    }
    let ghost chosen = event_views(events@);
    if let Some(usage) = chunk.get("usage") {
        let total: u64 = match usage.u64_at("total_tokens") {
            Some(n) => n,
            None => 0,
        };
        if total > 0 {
            let output: u64 = match usage.u64_at("completion_tokens") {
                Some(n) => n,
                None => 0,
            };
            push_event(events, make_message_delta(Object::new(), output));
        }
    }
    proof {
        assert(event_views(events@) =~= chosen + usage_events(chunk@));
        assert(event_views(events@) =~= before + chunk_progress(was, chunk@).events);
    }
}

// ---------------------------------------------------------------------------
// Translating the text of a stream
// ---------------------------------------------------------------------------

/// What the lines of a block add; tells whether the end mark is among them.
pub fn add_block_events(events: &mut Vec<StreamEvent>, blocks: &mut Blocks, block: &Vec<char>) -> (
    marked: bool)
    ensures
        marked == lines_marked(lines(block@)),
        final(blocks)@ == lines_progress(old(blocks)@, lines(block@)).now,
        event_views(final(events)@) == event_views(old(events)@) + lines_progress(
            old(blocks)@,
            lines(block@),
        ).events,
{
    let ghost before = event_views(events@);
    let all: Vec<String> = split_lines(block);
    let ghost list = views(all@);
    let ghost whole = lines_progress(blocks@, list);
    let mut i: usize = 0;
    proof {
        assert(list.skip(0) =~= list);
        reveal_strlit("data: ");
        assert(before + whole.events =~= event_views(events@) + lines_progress(
            blocks@,
            list.skip(0),
        ).events);
    }
    while i < all.len()
        invariant
            i <= all.len(),
            list == views(all@),
            list == lines(block@),
            "data: "@.len() == 6,
            before + whole.events == event_views(events@) + lines_progress(
                blocks@,
                list.skip(i as int),
            ).events,
            whole.now == lines_progress(blocks@, list.skip(i as int)).now,
            whole == lines_progress(old(blocks)@, lines(block@)),
            before == event_views(old(events)@),
            forall|j: int| 0 <= j < i ==> !is_end_mark(#[trigger] list[j]),
        decreases all.len() - i,
    {
        let ghost rest = list.skip(i as int);
        let ghost held = event_views(events@);
        let ghost was = blocks@;
        proof {
            assert(rest[0] == all@[i as int]@);
            assert(list[i as int] == rest[0]);
            assert(rest.drop_first() =~= list.skip(i + 1));
        }
        if let Some(data) = strip_prefix(all[i].as_str(), "data: ") {
            if same_text(trimmed(data.as_str()).as_str(), "[DONE]") {
                push_event(events, make_reason("end_turn"));
                push_event(events, make_stop());
                proof {
                    assert(is_end_mark(list[i as int]));
                    assert(event_views(events@) =~= held + done_events());
                }
                return true;
            }
            if let Some(chunk) = Json::parse(data.as_str()) {
                add_chunk_events(events, blocks, &chunk);
            }
            proof {
                let said = data_progress(was, data@);
                assert(event_views(events@) =~= held + said.events);
                assert(held + lines_progress(was, rest).events =~= event_views(events@)
                    + lines_progress(blocks@, list.skip(i + 1)).events);
            }
        }
        i = i + 1;
    }
    proof {
        assert(event_views(events@) + lines_progress(blocks@, list.skip(i as int)).events
            =~= event_views(events@));
    }
    false
}

/// The place of the first empty line at or behind a place.
fn find_break(text: &Vec<char>, from: usize) -> (found: Option<usize>)
    requires
        from <= text@.len(),
    ensures
        match found {
            Some(at) => from <= at < text@.len() - 1 && first_break(text@.skip(from as int))
                == Some(at - from),
            None => first_break(text@.skip(from as int)) is None,
        },
{
    let count: usize = text.len();
    let mut at: usize = from;
    while count - at > 1
        invariant
            from <= at <= count,
            count == text.len(),
            match first_break(text@.skip(at as int)) {
                Some(d) => first_break(text@.skip(from as int)) == Some(at - from + d),
                None => first_break(text@.skip(from as int)) is None,
            },
        decreases count - at,
    {
        let ghost rest = text@.skip(at as int);
        proof {
            assert(rest[0] == text@[at as int] && rest[1] == text@[at + 1]);
            assert(rest.drop_first() =~= text@.skip(at + 1));
        }
        if text[at] == '\n' && text[at + 1] == '\n' {
            return Some(at);
        }
        at = at + 1;
    }
    None
}

/// What the complete blocks of a text add, and what is left behind them; tells
/// whether the end mark came.
pub fn add_text_progress(
    events: &mut Vec<StreamEvent>,
    blocks: &mut Blocks,
    text: &Vec<char>,
) -> (left: (bool, Vec<char>))
    ensures
        left.0 == text_marked(text@),
        left.1@ == text_rest(text@),
        final(blocks)@ == text_progress(old(blocks)@, text@).now,
        event_views(final(events)@) == event_views(old(events)@) + text_progress(
            old(blocks)@,
            text@,
        ).events,
{
    let ghost before = event_views(events@);
    let ghost whole = text_progress(blocks@, text@);
    let mut marked: bool = false;
    let count: usize = text.len();
    let mut from: usize = 0;
    proof {
        assert(text@.skip(0) =~= text@);
    }
    loop
        invariant
            from <= count,
            count == text@.len(),
            before == event_views(old(events)@),
            whole == text_progress(old(blocks)@, text@),
            before + whole.events == event_views(events@) + text_progress(
                blocks@,
                text@.skip(from as int),
            ).events,
            whole.now == text_progress(blocks@, text@.skip(from as int)).now,
            text_marked(text@) == (marked || text_marked(text@.skip(from as int))),
            text_rest(text@) == text_rest(text@.skip(from as int)),
        decreases count - from,
    {
        let ghost rest = text@.skip(from as int);
        let ghost held = event_views(events@);
        match find_break(text, from) {
            Some(at) => {
                let block: Vec<char> = part_of(text, from, at);
                let ghost was = blocks@;
                proof {
                    assert(block@ =~= rest.take(at - from));
                    assert(rest.skip(at - from + 2) =~= text@.skip(at + 2));
                }
                let here: bool = add_block_events(events, blocks, &block);
                marked = marked || here;
                from = at + 2;
                proof {
                    assert(held + text_progress(was, rest).events =~= event_views(events@)
                        + text_progress(blocks@, text@.skip(from as int)).events);
                }
            },
            None => {
                let left: Vec<char> = part_of(text, from, count);
                proof {
                    assert(left@ =~= rest);
                    assert(event_views(events@) + text_progress(blocks@, rest).events
                        =~= event_views(events@));
                }
                return (marked, left);
            },
        }
    }
}

// ---------------------------------------------------------------------------
// A stream
// ---------------------------------------------------------------------------

/// The text of a list of bytes, as `String::from_utf8_lossy` makes it.
pub uninterp spec fn lossy_text(bytes: Seq<u8>) -> Seq<char>;

/// `String::from_utf8_lossy`: the text that the bytes encode, with replacement
/// characters where they are not UTF-8. Where those stand is a function of the
/// bytes and not stated further.
#[verifier::external_body]
fn text_from_bytes(bytes: &[u8]) -> (text: String)
    ensures
        text@ == lossy_text(bytes@),
        valid_utf8(bytes@) ==> text@ == decode_utf8(bytes@),
{
    String::from_utf8_lossy(bytes).into_owned()
}

/// A streamed reply under translation.
pub struct StreamTranslator {
    pub model: String,
    pub id: String,
    /// The blocks of the stream.
    pub blocks: Blocks,
    /// The end mark has come.
    pub done: bool,
    /// What came behind the last complete block.
    pub buffer: Vec<char>,
}

impl StreamTranslator {
    /// Nothing has come yet.
    pub open spec fn is_fresh(self) -> bool {
        &&& self.blocks@ == fresh()
        &&& !self.done
        &&& self.buffer@ == Seq::<char>::empty()
    }

    /// The translator has taken in a text, and these events came out.
    pub open spec fn takes_in(
        self,
        before: StreamTranslator,
        text: Seq<char>,
        events: Seq<Event>,
    ) -> bool {
        let whole = before.buffer@ + text;
        &&& events == text_progress(before.blocks@, whole).events
        &&& self.blocks@ == text_progress(before.blocks@, whole).now
        &&& self.done == (before.done || text_marked(whole))
        &&& self.buffer@ == text_rest(whole)
        &&& self.model == before.model
        &&& self.id == before.id
    }
}

impl StreamEvent {
    /// The event as it is sent.
    pub fn to_frame(&self) -> (frame: String)
        ensures
            frame@ == frame_text(self@),
    {
        let data: String = self.data.to_text();
        self.frame_with(data.as_str())
    }

    /// The event as it is sent, with the text of its data.
    pub fn frame_with(&self, data: &str) -> (frame: String)
        ensures
            frame@ == "event: "@ + self.name@ + "\ndata: "@ + data@ + "\n\n"@,
    {
        let mut frame: String = "event: ".to_owned();
        frame.append(self.name.as_str());
        frame.append("\ndata: ");
        frame.append(data);
        frame.append("\n\n");
        frame
    }
}

/// A translator for a reply of that model, under a random message id.
pub fn translate_stream_to_anthropic(model: &str) -> (translator: StreamTranslator)
    ensures
        is_message_id(translator.id@),
        translator.model@ == model@,
        translator.is_fresh(),
{
    let id: String = new_message_id();
    StreamTranslator::with_id(model, id)
}

impl StreamTranslator {
    /// A translator for a reply of that model, under that message id.
    pub fn with_id(model: &str, id: String) -> (translator: StreamTranslator)
        ensures
            translator.id == id,
            translator.model@ == model@,
            translator.is_fresh(),
    {
        StreamTranslator {
            model: model.to_owned(),
            id,
            blocks: Blocks::new(),
            done: false,
            buffer: Vec::new(),
        }
    }

    /// The event that opens the stream.
    pub fn start(&self) -> (event: StreamEvent)
        ensures
            event@ == start_event(self.id@, self.model@),
    {
        make_start(self.id.as_str(), self.model.as_str())
    }

    /// Takes in a piece of the stream's text: the events of the blocks that it
    /// completes come out, the rest is kept.
    pub fn push_text(&mut self, text: &str) -> (events: Vec<StreamEvent>)
        ensures
            final(self).takes_in(*old(self), text@, event_views(events@)),
    {
        let mut chars: Vec<char> = chars_of(text);
        self.buffer.append(&mut chars);
        let mut events: Vec<StreamEvent> = Vec::new();
        let (marked, rest): (bool, Vec<char>) = add_text_progress(
            &mut events,
            &mut self.blocks,
            &self.buffer,
        );
        self.done = self.done || marked;
        self.buffer = rest;
        proof {
            let progress = text_progress(old(self).blocks@, old(self).buffer@ + text@);
            assert(event_views(Seq::<StreamEvent>::empty()) + progress.events
                =~= progress.events);
        }
        events
    }

    /// Takes in a chunk of the stream, decoded on its own.
    pub fn push_chunk(&mut self, chunk: &[u8]) -> (events: Vec<StreamEvent>)
        ensures
            final(self).takes_in(*old(self), lossy_text(chunk@), event_views(events@)),
            valid_utf8(chunk@) ==> final(self).takes_in(
                *old(self),
                decode_utf8(chunk@),
                event_views(events@),
            ),
    {
        let text: String = text_from_bytes(chunk);
        self.push_text(text.as_str())
    }

    /// The event that closes the stream, where its end mark has not come and
    /// closed it already.
    pub fn finish(&self) -> (event: Option<StreamEvent>)
        ensures
            match event {
                Some(stop) => !self.done && stop@ == stop_event(),
                None => self.done,
            },
    {
        if self.done {
            None
        } else {
            Some(make_stop())
        }
    }
}

} // verus!
