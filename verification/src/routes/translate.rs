//! The translation between the two chat formats: requests of the Anthropic
//! messages format become requests of the OpenAI chat format, and replies go
//! the other way.

use vstd::prelude::*;
use vstd::string::*;

use crate::ids::{is_uuid, new_uuid};
use crate::json::{
    json_parse, json_text, lemma_trees, lemma_trees_add, lemma_trees_push, reads_back, text_or,
    trees, Json, Object, Tree,
};
use crate::seqs::{
    lemma_filter_map_empty, lemma_filter_map_has, lemma_flat_map_all, lemma_flat_map_has,
};
use crate::services::copilot::{
    has_agent, has_vision, holds_image, is_agent_message, is_image_part,
};
use crate::text::{join, join_texts, same_text, views};

verus! {

// ---------------------------------------------------------------------------
// Requests: what the translation is
// ---------------------------------------------------------------------------

/// The text of a content block, where it has one.
pub open spec fn block_text() -> spec_fn(Tree) -> Option<Seq<char>> {
    |block: Tree| block.at("text"@).as_text()
}

/// The texts of a list of blocks.
pub open spec fn block_texts(blocks: Seq<Tree>) -> Seq<Seq<char>> {
    blocks.filter_map(block_text())
}

/// Content as one text: a text as it is, a list of blocks by the texts of its
/// blocks, one to a line.
pub open spec fn flat_text(content: Tree) -> Seq<char> {
    match content {
        Tree::Text(text) => text,
        Tree::Array(blocks) => join(block_texts(blocks), "\n"@),
        _ => seq![],
    }
}

/// A message of the OpenAI format.
pub open spec fn message(role: Seq<char>, content: Tree) -> Tree {
    Tree::Object(map!["role"@ => Tree::Text(role), "content"@ => content])
}

/// A text part of a message's content.
pub open spec fn text_part(text: Seq<char>) -> Tree {
    Tree::Object(map!["type"@ => Tree::Text("text"@), "text"@ => Tree::Text(text)])
}

/// The URL that holds an image's data.
pub open spec fn image_data_url(source: Tree) -> Seq<char> {
    "data:"@ + text_or(source.at("media_type"@).as_text(), "image/png"@) + ";base64,"@ + text_or(
        source.at("data"@).as_text(),
        ""@,
    )
}

/// An image part of a message's content.
pub open spec fn image_part(source: Tree) -> Tree {
    Tree::Object(
        map![
            "type"@ => Tree::Text("image_url"@),
            "image_url"@ => Tree::Object(map!["url"@ => Tree::Text(image_data_url(source))]),
        ],
    )
}

/// The type of a content block; a block without one is text.
pub open spec fn block_type(block: Tree) -> Seq<char> {
    text_or(block.at("type"@).as_text(), "text"@)
}

/// The content part that a block becomes: text and thinking become text, an
/// image with a source becomes an image.
pub open spec fn block_part() -> spec_fn(Tree) -> Option<Tree> {
    |block: Tree|
        if block_type(block) == "text"@ {
            Some(text_part(text_or(block.at("text"@).as_text(), ""@)))
        } else if block_type(block) == "image"@ {
            match block.get("source"@) {
                Some(source) => Some(image_part(source)),
                None => None,
            }
        } else if block_type(block) == "thinking"@ {
            match block.at("thinking"@).as_text() {
                Some(text) => Some(text_part(text)),
                None => None,
            }
        } else {
            None
        }
}

/// What a tool is called with: the block's input, or an empty object.
pub open spec fn tool_input(block: Tree) -> Tree {
    match block.get("input"@) {
        Some(input) => input,
        None => Tree::Object(Map::empty()),
    }
}

/// A tool call of the OpenAI format, with its arguments as text.
pub open spec fn tool_call_with(block: Tree, arguments: Seq<char>) -> Tree {
    Tree::Object(
        map![
            "id"@ => block.at("id"@),
            "type"@ => Tree::Text("function"@),
            "function"@ => Tree::Object(
                map!["name"@ => block.at("name"@), "arguments"@ => Tree::Text(arguments)],
            ),
        ],
    )
}

/// The tool call that a block becomes.
pub open spec fn block_call() -> spec_fn(Tree) -> Option<Tree> {
    |block: Tree|
        if block_type(block) == "tool_use"@ {
            Some(tool_call_with(block, json_text(tool_input(block))))
        } else {
            None
        }
}

/// The tool message that a block becomes.
pub open spec fn block_reply() -> spec_fn(Tree) -> Option<Tree> {
    |block: Tree|
        if block_type(block) == "tool_result"@ {
            Some(
                Tree::Object(
                    map![
                        "role"@ => Tree::Text("tool"@),
                        "tool_call_id"@ => block.at("tool_use_id"@),
                        "content"@ => Tree::Text(flat_text(block.at("content"@))),
                    ],
                ),
            )
        } else {
            None
        }
}

/// The message that calls tools, with the texts beside the calls.
pub open spec fn calling_message(parts: Seq<Tree>, calls: Seq<Tree>) -> Tree {
    let plain = map!["role"@ => Tree::Text("assistant"@), "tool_calls"@ => Tree::Array(calls)];
    let text = join(block_texts(parts), "\n"@);
    Tree::Object(
        if text.len() > 0 {
            plain.insert("content"@, Tree::Text(text))
        } else {
            plain
        },
    )
}

/// The message that the parts and the calls of one message make up: none,
/// where there are neither.
pub open spec fn closing_messages(role: Seq<char>, parts: Seq<Tree>, calls: Seq<Tree>) -> Seq<
    Tree,
> {
    if calls.len() > 0 {
        seq![calling_message(parts, calls)]
    } else if parts.len() == 1 && parts[0].at("type"@) == Tree::Text("text"@) {
        seq![message(role, parts[0].at("text"@))]
    } else if parts.len() > 0 {
        seq![message(role, Tree::Array(parts))]
    } else {
        seq![]
    }
}

/// The messages that a list of blocks becomes: first the results of tools, then
/// what the other blocks make up.
pub open spec fn block_messages(role: Seq<char>, blocks: Seq<Tree>) -> Seq<Tree> {
    blocks.filter_map(block_reply()) + closing_messages(
        role,
        blocks.filter_map(block_part()),
        blocks.filter_map(block_call()),
    )
}

/// The role that a message has in the OpenAI format.
pub open spec fn message_role(source: Tree) -> Seq<char> {
    if text_or(source.at("role"@).as_text(), "user"@) == "assistant"@ {
        "assistant"@
    } else {
        "user"@
    }
}

/// The messages that one message becomes.
pub open spec fn translated_message() -> spec_fn(Tree) -> Seq<Tree> {
    |source: Tree|
        match source.at("content"@) {
            Tree::Text(text) => seq![message(message_role(source), Tree::Text(text))],
            Tree::Array(blocks) => block_messages(message_role(source), blocks),
            _ => seq![],
        }
}

/// The message that the system prompt becomes, where it is not empty.
pub open spec fn system_messages(request: Tree) -> Seq<Tree> {
    let text = flat_text(request.at("system"@));
    if text.len() > 0 {
        seq![message("system"@, Tree::Text(text))]
    } else {
        seq![]
    }
}

/// All messages of the translated request.
pub open spec fn translated_messages(request: Tree) -> Seq<Tree> {
    system_messages(request) + match request.at("messages"@).as_array() {
        Some(messages) => messages.flat_map(translated_message()),
        None => seq![],
    }
}

/// A tool's declaration in the OpenAI format.
pub open spec fn translated_tool() -> spec_fn(Tree) -> Tree {
    |tool: Tree|
        Tree::Object(
            map![
                "type"@ => Tree::Text("function"@),
                "function"@ => Tree::Object(
                    map![
                        "name"@ => tool.at("name"@),
                        "description"@ => match tool.get("description"@) {
                            Some(description) => description,
                            None => Tree::Text(""@),
                        },
                        "parameters"@ => match tool.get("input_schema"@) {
                            Some(schema) => schema,
                            None => Tree::Object(Map::empty()),
                        },
                    ],
                ),
            ],
        )
}

/// The members with one more, where there is a value for it.
pub open spec fn with_member(
    members: Map<Seq<char>, Tree>,
    name: Seq<char>,
    value: Option<Tree>,
) -> Map<Seq<char>, Tree> {
    match value {
        Some(v) => members.insert(name, v),
        None => members,
    }
}

/// Whether a request asks for a stream.
pub open spec fn wants_stream(request: Tree) -> bool {
    request.at("stream"@).as_bool() == Some(true)
}

/// The members that every translated request has.
pub open spec fn basic_members(request: Tree) -> Map<Seq<char>, Tree> {
    map![
        "model"@ => Tree::Text(text_or(request.at("model"@).as_text(), "gpt-4o"@)),
        "messages"@ => Tree::Array(translated_messages(request)),
        "max_tokens"@ => Tree::Int(
            match request.at("max_tokens"@).as_u64() {
                Some(n) => n as int,
                None => 4096,
            },
        ),
        "stream"@ => Tree::Bool(wants_stream(request)),
    ]
}

/// The tools of the translated request, where the request lists any.
pub open spec fn translated_tools(request: Tree) -> Option<Tree> {
    match request.at("tools"@).as_array() {
        Some(tools) => Some(Tree::Array(tools.map_values(translated_tool()))),
        None => None,
    }
}

/// The request in the OpenAI format.
pub open spec fn openai_request(request: Tree) -> Tree {
    let sampled = with_member(
        with_member(basic_members(request), "temperature"@, request.get("temperature"@)),
        "top_p"@,
        request.get("top_p"@),
    );
    let tooled = with_member(sampled, "tools"@, translated_tools(request));
    Tree::Object(
        if wants_stream(request) {
            tooled.insert(
                "stream_options"@,
                Tree::Object(map!["include_usage"@ => Tree::Bool(true)]),
            )
        } else {
            tooled
        },
    )
}

// ---------------------------------------------------------------------------
// Requests: the functions
// ---------------------------------------------------------------------------

/// The texts of a list of blocks.
fn texts_of(blocks: &Vec<Json>) -> (texts: Vec<String>)
    ensures
        views(texts@) == block_texts(trees(blocks@)),
{
    let mut texts: Vec<String> = Vec::new();
    let count: usize = blocks.len();
    let mut i: usize = 0;
    proof {
        lemma_trees(blocks@);
        assert(views(texts@) =~= block_texts(trees(blocks@).take(0)));
    }
    while i < count
        invariant
            i <= count,
            count == blocks.len(),
            trees(blocks@).len() == count,
            forall|j: int| 0 <= j < count ==> #[trigger] trees(blocks@)[j] == blocks@[j]@,
            views(texts@) == block_texts(trees(blocks@).take(i as int)),
        decreases count - i,
    {
        let ghost before = views(texts@);
        proof {
            trees(blocks@).lemma_filter_map_take_succ(block_text(), i as int);
        }
        if let Some(text) = blocks[i].text_at("text") {
            texts.push(text.to_owned());
            proof {
                assert(views(texts@) =~= before + seq![text@]);
            }
        }
        i = i + 1;
    }
    proof {
        assert(trees(blocks@).take(count as int) =~= trees(blocks@));
    }
    texts
}

/// The texts of a list of blocks, one to a line.
fn joined_texts(blocks: &Vec<Json>) -> (text: String)
    ensures
        text@ == join(block_texts(trees(blocks@)), "\n"@),
{
    let texts: Vec<String> = texts_of(blocks);
    join_texts(&texts, "\n")
}

/// Content as one text.
fn flattened(content: &Json) -> (text: String)
    ensures
        text@ == flat_text(content@),
{
    match content {
        Json::Text(text) => text.clone(),
        Json::Array(blocks) => joined_texts(blocks),
        _ => String::new(),
    }
}

/// A message of the OpenAI format.
fn make_message(role: &str, content: Json) -> (made: Json)
    ensures
        made@ == message(role@, content@),
{
    let mut members: Object = Object::new();
    members.insert("role", Json::text(role));
    members.insert("content", content);
    Json::Object(members)
}

fn make_text_part(text: &str) -> (part: Json)
    ensures
        part@ == text_part(text@),
{
    let mut members: Object = Object::new();
    members.insert("type", Json::text("text"));
    members.insert("text", Json::text(text));
    Json::Object(members)
}

fn make_image_part(source: &Json) -> (part: Json)
    ensures
        part@ == image_part(source@),
{
    let mut url: String = "data:".to_owned();
    url.append(source.text_or("media_type", "image/png"));
    url.append(";base64,");
    url.append(source.text_or("data", ""));
    let mut image: Object = Object::new();
    image.insert("url", Json::Text(url));
    let mut members: Object = Object::new();
    members.insert("type", Json::text("image_url"));
    members.insert("image_url", Json::Object(image));
    Json::Object(members)
}

/// The content part that a block becomes.
pub fn part_from_block(block: &Json) -> (part: Option<Json>)
    ensures
        match part {
            Some(p) => block_part()(block@) == Some(p@),
            None => block_part()(block@) is None,
        },
{
    let kind: &str = block.text_or("type", "text");
    if same_text(kind, "text") {
        Some(make_text_part(block.text_or("text", "")))
    } else if same_text(kind, "image") {
        match block.get("source") {
            Some(source) => Some(make_image_part(source)),
            None => None,
        }
    } else if same_text(kind, "thinking") {
        match block.text_at("thinking") {
            Some(text) => Some(make_text_part(text)),
            None => None,
        }
    } else {
        None
    }
}

/// A tool call of the OpenAI format, with its arguments as text.
pub fn tool_call(block: &Json, arguments: &str) -> (call: Json)
    ensures
        call@ == tool_call_with(block@, arguments@),
{
    let mut function: Object = Object::new();
    function.insert("name", block.at("name"));
    function.insert("arguments", Json::text(arguments));
    let mut members: Object = Object::new();
    members.insert("id", block.at("id"));
    members.insert("type", Json::text("function"));
    members.insert("function", Json::Object(function));
    Json::Object(members)
}

/// The parts of a tool call are those that it was made of.
proof fn lemma_call_parts(block: Tree, arguments: Seq<char>)
    ensures
        tool_call_with(block, arguments).at("id"@) == block.at("id"@),
        tool_call_with(block, arguments).at("function"@).at("name"@) == block.at("name"@),
        tool_call_with(block, arguments).at("function"@).at("arguments"@) == Tree::Text(arguments),
{
    reveal_strlit("id");
    reveal_strlit("type");
    reveal_strlit("function");
    reveal_strlit("name");
    reveal_strlit("arguments");
    assert("id"@.len() == 2);
    assert("type"@.len() == 4);
    assert("function"@.len() == 8);
    assert("name"@.len() == 4);
    assert("arguments"@.len() == 9);
}

/// The tool call that a block becomes. Where the input is one that reading
/// gives back after writing, the call becomes a block of the same id, name and
/// input again.
pub fn call_from_block(block: &Json) -> (call: Option<Json>)
    ensures
        match call {
            Some(c) => {
                &&& block_call()(block@) == Some(c@)
                &&& reads_back(tool_input(block@), 127) ==> call_block()(c@) == tool_use_of(
                    block@.at("id"@),
                    block@.at("name"@),
                    tool_input(block@),
                )
            },
            None => block_call()(block@) is None,
        },
{
    if same_text(block.text_or("type", "text"), "tool_use") {
        let arguments: String = match block.get("input") {
            Some(input) => input.to_text(),
            None => Json::Object(Object::new()).to_text(),
        };
        proof {
            lemma_call_parts(block@, arguments@);
        }
        Some(tool_call(block, arguments.as_str()))
    } else {
        None
    }
}

/// The tool message that a block becomes.
pub fn reply_from_block(block: &Json) -> (reply: Option<Json>)
    ensures
        match reply {
            Some(r) => block_reply()(block@) == Some(r@),
            None => block_reply()(block@) is None,
        },
{
    if same_text(block.text_or("type", "text"), "tool_result") {
        let content: String = match block.get("content") {
            Some(content) => flattened(content),
            None => String::new(),
        };
        let mut members: Object = Object::new();
        members.insert("role", Json::text("tool"));
        members.insert("tool_call_id", block.at("tool_use_id"));
        members.insert("content", Json::Text(content));
        Some(Json::Object(members))
    } else {
        None
    }
}

/// The message that calls tools.
fn make_calling_message(parts: &Vec<Json>, calls: Vec<Json>) -> (made: Json)
    ensures
        made@ == calling_message(trees(parts@), trees(calls@)),
{
    let mut members: Object = Object::new();
    members.insert("role", Json::text("assistant"));
    members.insert("tool_calls", Json::Array(calls));
    let text: String = joined_texts(parts);
    if !text.as_str().is_empty() {
        members.insert("content", Json::Text(text));
    }
    Json::Object(members)
}

/// The content parts of a list of blocks.
fn parts_from_blocks(blocks: &Vec<Json>) -> (made: Vec<Json>)
    ensures
        trees(made@) == trees(blocks@).filter_map(block_part()),
{
    let mut made: Vec<Json> = Vec::new();
    let count: usize = blocks.len();
    let mut i: usize = 0;
    proof {
        lemma_trees(blocks@);
        assert(trees(made@) =~= trees(blocks@).take(0).filter_map(block_part()));
    }
    while i < count
        invariant
            i <= count,
            count == blocks.len(),
            trees(blocks@).len() == count,
            forall|j: int| 0 <= j < count ==> #[trigger] trees(blocks@)[j] == blocks@[j]@,
            trees(made@) == trees(blocks@).take(i as int).filter_map(block_part()),
        decreases count - i,
    {
        let ghost before = made@;
        proof {
            trees(blocks@).lemma_filter_map_take_succ(block_part(), i as int);
        }
        if let Some(value) = part_from_block(&blocks[i]) {
            made.push(value);
            proof {
                lemma_trees_push(before, value);
                assert(trees(made@) =~= trees(before) + seq![value@]);
            }
        }
        i = i + 1;
    }
    proof {
        assert(trees(blocks@).take(count as int) =~= trees(blocks@));
    }
    made
}

/// The tool calls of a list of blocks.
fn calls_from_blocks(blocks: &Vec<Json>) -> (made: Vec<Json>)
    ensures
        trees(made@) == trees(blocks@).filter_map(block_call()),
{
    let mut made: Vec<Json> = Vec::new();
    let count: usize = blocks.len();
    let mut i: usize = 0;
    proof {
        lemma_trees(blocks@);
        assert(trees(made@) =~= trees(blocks@).take(0).filter_map(block_call()));
    }
    while i < count
        invariant
            i <= count,
            count == blocks.len(),
            trees(blocks@).len() == count,
            forall|j: int| 0 <= j < count ==> #[trigger] trees(blocks@)[j] == blocks@[j]@,
            trees(made@) == trees(blocks@).take(i as int).filter_map(block_call()),
        decreases count - i,
    {
        let ghost before = made@;
        proof {
            trees(blocks@).lemma_filter_map_take_succ(block_call(), i as int);
        }
        if let Some(value) = call_from_block(&blocks[i]) {
            made.push(value);
            proof {
                lemma_trees_push(before, value);
                assert(trees(made@) =~= trees(before) + seq![value@]);
            }
        }
        i = i + 1;
    }
    proof {
        assert(trees(blocks@).take(count as int) =~= trees(blocks@));
    }
    made
}

/// The tool messages of a list of blocks.
fn replies_from_blocks(blocks: &Vec<Json>) -> (made: Vec<Json>)
    ensures
        trees(made@) == trees(blocks@).filter_map(block_reply()),
{
    let mut made: Vec<Json> = Vec::new();
    let count: usize = blocks.len();
    let mut i: usize = 0;
    proof {
        lemma_trees(blocks@);
        assert(trees(made@) =~= trees(blocks@).take(0).filter_map(block_reply()));
    }
    while i < count
        invariant
            i <= count,
            count == blocks.len(),
            trees(blocks@).len() == count,
            forall|j: int| 0 <= j < count ==> #[trigger] trees(blocks@)[j] == blocks@[j]@,
            trees(made@) == trees(blocks@).take(i as int).filter_map(block_reply()),
        decreases count - i,
    {
        let ghost before = made@;
        proof {
            trees(blocks@).lemma_filter_map_take_succ(block_reply(), i as int);
        }
        if let Some(value) = reply_from_block(&blocks[i]) {
            made.push(value);
            proof {
                lemma_trees_push(before, value);
                assert(trees(made@) =~= trees(before) + seq![value@]);
            }
        }
        i = i + 1;
    }
    proof {
        assert(trees(blocks@).take(count as int) =~= trees(blocks@));
    }
    made
}

/// The messages that a list of blocks becomes, put behind those of a list.
fn add_block_messages(messages: &mut Vec<Json>, role: &str, blocks: &Vec<Json>)
    ensures
        trees(final(messages)@) == trees(old(messages)@) + block_messages(role@, trees(blocks@)),
{
    let ghost before = messages@;
    let mut replies: Vec<Json> = replies_from_blocks(blocks);
    let parts: Vec<Json> = parts_from_blocks(blocks);
    let calls: Vec<Json> = calls_from_blocks(blocks);
    proof {
        lemma_trees_add(messages@, replies@);
        lemma_trees(parts@);
        lemma_trees(calls@);
    }
    messages.append(&mut replies);
    let ghost replied = messages@;
    if calls.len() > 0 {
        let made: Json = make_calling_message(&parts, calls);
        messages.push(made);
        proof {
            lemma_trees_push(replied, made);
        }
    } else if parts.len() == 1 && is_text_part(&parts[0]) {
        let made: Json = make_message(role, parts[0].at("text"));
        messages.push(made);
        proof {
            lemma_trees_push(replied, made);
        }
    } else if parts.len() > 0 {
        let made: Json = make_message(role, Json::Array(parts));
        messages.push(made);
        proof {
            lemma_trees_push(replied, made);
        }
    }
    proof {
        assert(trees(messages@) =~= trees(before) + block_messages(role@, trees(blocks@)));
    }
}

fn is_text_part(part: &Json) -> (is: bool)
    ensures
        is == (part@.at("type"@) == Tree::Text("text"@)),
{
    match part.text_at("type") {
        Some(kind) => same_text(kind, "text"),
        None => false,
    }
}

/// The messages that one message becomes, put behind those of a list.
pub fn add_translated_message(messages: &mut Vec<Json>, source: &Json)
    ensures
        trees(final(messages)@) == trees(old(messages)@) + translated_message()(source@),
{
    let ghost before = messages@;
    let role: &str = if same_text(source.text_or("role", "user"), "assistant") {
        "assistant"
    } else {
        "user"
    };
    match source.get("content") {
        Some(Json::Text(text)) => {
            let made: Json = make_message(role, Json::text(text.as_str()));
            messages.push(made);
            proof {
                lemma_trees_push(before, made);
            }
        },
        Some(Json::Array(blocks)) => {
            add_block_messages(messages, role, blocks);
        },
        _ => {},
    }
    proof {
        assert(trees(messages@) =~= trees(before) + translated_message()(source@));
    }
}

/// All messages of the translated request.
fn translate_messages(request: &Json) -> (messages: Vec<Json>)
    ensures
        trees(messages@) == translated_messages(request@),
{
    let mut messages: Vec<Json> = Vec::new();
    if let Some(system) = request.get("system") {
        let text: String = flattened(system);
        if !text.as_str().is_empty() {
            let made: Json = make_message("system", Json::Text(text));
            messages.push(made);
            proof {
                lemma_trees_push(seq![], made);
                assert(messages@ =~= seq![].push(made));
            }
        }
    }
    proof {
        assert(trees(messages@) =~= system_messages(request@));
    }
    if let Some(sources) = request.array_at("messages") {
        let count: usize = sources.len();
        let mut i: usize = 0;
        proof {
            lemma_trees(sources@);
            assert(trees(messages@) =~= system_messages(request@) + trees(sources@).take(
                0,
            ).flat_map(translated_message()));
        }
        while i < count
            invariant
                i <= count,
                count == sources.len(),
                trees(sources@).len() == count,
                forall|j: int| 0 <= j < count ==> #[trigger] trees(sources@)[j] == sources@[j]@,
                trees(messages@) == system_messages(request@) + trees(sources@).take(
                    i as int,
                ).flat_map(translated_message()),
            decreases count - i,
        {
            proof {
                trees(sources@).lemma_flat_map_take_append(translated_message(), i as int);
            }
            add_translated_message(&mut messages, &sources[i]);
            proof {
                assert(trees(messages@) =~= system_messages(request@) + trees(sources@).take(
                    i + 1,
                ).flat_map(translated_message()));
            }
            i = i + 1;
        }
        proof {
            assert(trees(sources@).take(count as int) =~= trees(sources@));
        }
    } else {
        proof {
            assert(trees(messages@) =~= translated_messages(request@));
        }
    }
    messages
}

/// A tool's declaration in the OpenAI format.
pub fn translate_tool(tool: &Json) -> (made: Json)
    ensures
        made@ == translated_tool()(tool@),
{
    let mut function: Object = Object::new();
    function.insert("name", tool.at("name"));
    let description: Json = match tool.get("description") {
        Some(description) => description.copy(),
        None => Json::text(""),
    };
    function.insert("description", description);
    let parameters: Json = match tool.get("input_schema") {
        Some(schema) => schema.copy(),
        None => Json::Object(Object::new()),
    };
    function.insert("parameters", parameters);
    let mut members: Object = Object::new();
    members.insert("type", Json::text("function"));
    members.insert("function", Json::Object(function));
    Json::Object(members)
}

fn translate_tools(tools: &Vec<Json>) -> (made: Vec<Json>)
    ensures
        trees(made@) == trees(tools@).map_values(translated_tool()),
{
    let mut made: Vec<Json> = Vec::new();
    let count: usize = tools.len();
    let mut i: usize = 0;
    while i < count
        invariant
            i <= count,
            count == tools.len(),
            made.len() == i,
            forall|j: int| 0 <= j < i ==> (#[trigger] made@[j])@ == translated_tool()(tools@[j]@),
        decreases count - i,
    {
        made.push(translate_tool(&tools[i]));
        i = i + 1;
    }
    proof {
        lemma_trees(made@);
        lemma_trees(tools@);
        assert(trees(made@) =~= trees(tools@).map_values(translated_tool()));
    }
    made
}

/// Whether a request asks for a stream.
pub fn asks_for_stream(request: &Json) -> (asks: bool)
    ensures
        asks == wants_stream(request@),
{
    match request.bool_at("stream") {
        Some(stream) => stream,
        None => false,
    }
}

/// A request of the Anthropic messages format, in the OpenAI chat format.
pub fn translate_anthropic_to_openai(anthropic: &Json) -> (openai: Json)
    ensures
        openai@ == openai_request(anthropic@),
{
    let stream: bool = asks_for_stream(anthropic);
    let max_tokens: u64 = match anthropic.u64_at("max_tokens") {
        Some(n) => n,
        None => 4096,
    };
    let mut result: Object = Object::new();
    result.insert("model", Json::text(anthropic.text_or("model", "gpt-4o")));
    result.insert("messages", Json::Array(translate_messages(anthropic)));
    result.insert("max_tokens", Json::unsigned(max_tokens));
    result.insert("stream", Json::Bool(stream));
    if let Some(temperature) = anthropic.get("temperature") {
        result.insert("temperature", temperature.copy());
    }
    if let Some(top_p) = anthropic.get("top_p") {
        result.insert("top_p", top_p.copy());
    }
    if let Some(tools) = anthropic.array_at("tools") {
        result.insert("tools", Json::Array(translate_tools(tools)));
    }
    if stream {
        let mut options: Object = Object::new();
        options.insert("include_usage", Json::Bool(true));
        result.insert("stream_options", Json::Object(options));
    }
    Json::Object(result)
}

// ---------------------------------------------------------------------------
// Replies: what the translation is
// ---------------------------------------------------------------------------

/// What the arguments of a tool call stand for: the value that the text is, or
/// an empty object where it is none.
pub open spec fn parsed_arguments(arguments: Seq<char>) -> Tree {
    match json_parse(arguments) {
        Some(input) => input,
        None => Tree::Object(Map::empty()),
    }
}

/// A tool use block.
pub open spec fn tool_use_of(id: Tree, name: Tree, input: Tree) -> Tree {
    Tree::Object(
        map![
            "type"@ => Tree::Text("tool_use"@),
            "id"@ => id,
            "name"@ => name,
            "input"@ => input,
        ],
    )
}

/// The tool use block of a call, with that input.
pub open spec fn tool_use_with(call: Tree, input: Tree) -> Tree {
    tool_use_of(call.at("id"@), call.at("function"@).at("name"@), input)
}

/// The block that a tool call becomes.
pub open spec fn call_block() -> spec_fn(Tree) -> Tree {
    |call: Tree|
        tool_use_with(
            call,
            parsed_arguments(text_or(call.at("function"@).at("arguments"@).as_text(), "{}"@)),
        )
}

/// The blocks of a message's text: one, where it is not empty.
pub open spec fn content_blocks(content: Tree) -> Seq<Tree> {
    match content.as_text() {
        Some(text) => if text.len() > 0 {
            seq![text_part(text)]
        } else {
            seq![]
        },
        None => seq![],
    }
}

/// The blocks of a message's tool calls.
pub open spec fn call_blocks(calls: Tree) -> Seq<Tree> {
    match calls.as_array() {
        Some(list) => list.map_values(call_block()),
        None => seq![],
    }
}

/// The blocks that one choice becomes: its text, then its tool calls.
pub open spec fn choice_blocks() -> spec_fn(Tree) -> Seq<Tree> {
    |choice: Tree|
        content_blocks(choice.at("message"@).at("content"@)) + call_blocks(
            choice.at("message"@).at("tool_calls"@),
        )
}

/// The blocks of a reply.
pub open spec fn reply_blocks(reply: Tree) -> Seq<Tree> {
    match reply.at("choices"@).as_array() {
        Some(choices) => choices.flat_map(choice_blocks()),
        None => seq![],
    }
}

/// Why a reply ended, in the words of the Anthropic format.
pub open spec fn stop_reason(finish: Option<Seq<char>>) -> Seq<char> {
    if finish == Some("length"@) {
        "max_tokens"@
    } else if finish == Some("tool_calls"@) {
        "tool_use"@
    } else {
        "end_turn"@
    }
}

/// A count of tokens, or zero.
pub open spec fn token_count(count: Tree) -> int {
    match count.as_u64() {
        Some(n) => n as int,
        None => 0,
    }
}

/// The usage of a reply in the Anthropic format.
pub open spec fn translated_usage(usage: Tree) -> Tree {
    Tree::Object(
        map![
            "input_tokens"@ => Tree::Int(token_count(usage.at("prompt_tokens"@))),
            "output_tokens"@ => Tree::Int(token_count(usage.at("completion_tokens"@))),
            "cache_creation_input_tokens"@ => Tree::Int(0),
            "cache_read_input_tokens"@ => Tree::Int(0),
        ],
    )
}

/// The reply in the Anthropic format, under that message id.
pub open spec fn anthropic_reply(reply: Tree, model: Seq<char>, id: Seq<char>) -> Tree {
    Tree::Object(
        map![
            "id"@ => Tree::Text(id),
            "type"@ => Tree::Text("message"@),
            "role"@ => Tree::Text("assistant"@),
            "model"@ => Tree::Text(model),
            "content"@ => Tree::Array(reply_blocks(reply)),
            "stop_reason"@ => Tree::Text(
                stop_reason(reply.at("choices"@).item(0).at("finish_reason"@).as_text()),
            ),
            "stop_sequence"@ => Tree::Null,
            "usage"@ => translated_usage(reply.at("usage"@)),
        ],
    )
}

/// The id of a message: `msg_` and a random identifier.
pub open spec fn is_message_id(id: Seq<char>) -> bool {
    exists|uuid: Seq<char>| #[trigger] is_uuid(uuid) && id == "msg_"@ + uuid
}

// ---------------------------------------------------------------------------
// Replies: the functions
// ---------------------------------------------------------------------------

/// A random message id.
pub fn new_message_id() -> (id: String)
    ensures
        is_message_id(id@),
{
    let uuid: String = new_uuid();
    let mut id: String = "msg_".to_owned();
    id.append(uuid.as_str());
    id
}

/// A tool use block, with that input.
pub fn tool_use(call: &Json, input: Json) -> (block: Json)
    ensures
        block@ == tool_use_with(call@, input@),
{
    let name: Json = match call.get("function") {
        Some(function) => function.at("name"),
        None => Json::Null,
    };
    let mut members: Object = Object::new();
    members.insert("type", Json::text("tool_use"));
    members.insert("id", call.at("id"));
    members.insert("name", name);
    members.insert("input", input);
    Json::Object(members)
}

/// The block that a tool call becomes.
pub fn block_from_call(call: &Json) -> (block: Json)
    ensures
        block@ == call_block()(call@),
{
    let arguments: &str = match call.get("function") {
        Some(function) => function.text_or("arguments", "{}"),
        None => "{}",
    };
    let input: Json = match Json::parse(arguments) {
        Some(input) => input,
        None => Json::Object(Object::new()),
    };
    tool_use(call, input)
}

/// The blocks that one choice becomes, put behind those of a list.
pub fn add_choice_blocks(blocks: &mut Vec<Json>, choice: &Json)
    ensures
        trees(final(blocks)@) == trees(old(blocks)@) + choice_blocks()(choice@),
{
    let ghost before = trees(blocks@);
    let ghost message = choice@.at("message"@);
    if let Some(source) = choice.get("message") {
        if let Some(text) = source.text_at("content") {
            if !text.is_empty() {
                let part: Json = make_text_part(text);
                proof {
                    lemma_trees_push(blocks@, part);
                }
                blocks.push(part);
            }
        }
        proof {
            assert(trees(blocks@) =~= before + content_blocks(message.at("content"@)));
        }
        if let Some(calls) = source.array_at("tool_calls") {
            let ghost texted = trees(blocks@);
            let count: usize = calls.len();
            let mut i: usize = 0;
            proof {
                lemma_trees(calls@);
                assert(trees(blocks@) =~= texted + trees(calls@).take(0).map_values(call_block()));
            }
            while i < count
                invariant
                    i <= count,
                    count == calls.len(),
                    trees(calls@).len() == count,
                    forall|j: int| 0 <= j < count ==> #[trigger] trees(calls@)[j] == calls@[j]@,
                    trees(blocks@) == texted + trees(calls@).take(i as int).map_values(
                        call_block(),
                    ),
                decreases count - i,
            {
                let ghost listed = blocks@;
                let block: Json = block_from_call(&calls[i]);
                blocks.push(block);
                proof {
                    lemma_trees_push(listed, block);
                    assert(trees(calls@).take(i + 1).map_values(call_block()) =~= trees(
                        calls@,
                    ).take(i as int).map_values(call_block()).push(block@));
                    assert(trees(blocks@) =~= texted + trees(calls@).take(i + 1).map_values(
                        call_block(),
                    ));
                }
                i = i + 1;
            }
            proof {
                assert(trees(calls@).take(count as int) =~= trees(calls@));
            }
        } else {
            proof {
                assert(trees(blocks@) =~= before + choice_blocks()(choice@));
            }
        }
        proof {
            assert(trees(blocks@) =~= before + choice_blocks()(choice@));
        }
    } else {
        proof {
            assert(trees(blocks@) =~= before + choice_blocks()(choice@));
        }
    }
}

/// The blocks of a reply.
fn blocks_of_reply(reply: &Json) -> (blocks: Vec<Json>)
    ensures
        trees(blocks@) == reply_blocks(reply@),
{
    let mut blocks: Vec<Json> = Vec::new();
    if let Some(choices) = reply.array_at("choices") {
        let count: usize = choices.len();
        let mut i: usize = 0;
        proof {
            lemma_trees(choices@);
            assert(trees(blocks@) =~= trees(choices@).take(0).flat_map(choice_blocks()));
        }
        while i < count
            invariant
                i <= count,
                count == choices.len(),
                trees(choices@).len() == count,
                forall|j: int| 0 <= j < count ==> #[trigger] trees(choices@)[j] == choices@[j]@,
                trees(blocks@) == trees(choices@).take(i as int).flat_map(choice_blocks()),
            decreases count - i,
        {
            proof {
                trees(choices@).lemma_flat_map_take_append(choice_blocks(), i as int);
            }
            add_choice_blocks(&mut blocks, &choices[i]);
            i = i + 1;
        }
        proof {
            assert(trees(choices@).take(count as int) =~= trees(choices@));
        }
    }
    blocks
}

/// Why a reply ended, in the words of the Anthropic format.
pub fn stop_reason_from(finish: Option<&str>) -> (reason: &'static str)
    ensures
        reason@ == stop_reason(
            match finish {
                Some(text) => Some(text@),
                None => None,
            },
        ),
{
    match finish {
        Some(text) => if same_text(text, "length") {
            "max_tokens"
        } else if same_text(text, "tool_calls") {
            "tool_use"
        } else {
            "end_turn"
        },
        None => "end_turn",
    }
}

/// The usage of a reply in the Anthropic format.
fn translate_usage(reply: &Json) -> (usage: Json)
    ensures
        usage@ == translated_usage(reply@.at("usage"@)),
{
    let mut input_tokens: u64 = 0;
    let mut output_tokens: u64 = 0;
    if let Some(usage) = reply.get("usage") {
        if let Some(n) = usage.u64_at("prompt_tokens") {
            input_tokens = n;
        }
        if let Some(n) = usage.u64_at("completion_tokens") {
            output_tokens = n;
        }
    }
    let mut members: Object = Object::new();
    members.insert("input_tokens", Json::unsigned(input_tokens));
    members.insert("output_tokens", Json::unsigned(output_tokens));
    members.insert("cache_creation_input_tokens", Json::unsigned(0));
    members.insert("cache_read_input_tokens", Json::unsigned(0));
    Json::Object(members)
}

/// The reason of the first choice of a reply.
fn first_stop_reason(reply: &Json) -> (reason: &'static str)
    ensures
        reason@ == stop_reason(reply@.at("choices"@).item(0).at("finish_reason"@).as_text()),
{
    if let Some(choices) = reply.array_at("choices") {
        proof {
            lemma_trees(choices@);
        }
        if choices.len() > 0 {
            return stop_reason_from(choices[0].text_at("finish_reason"));
        }
    }
    "end_turn"
}

/// A reply of the OpenAI chat format, in the Anthropic messages format, under
/// that message id.
pub fn translate_openai_to_anthropic_with(openai: &Json, model: &str, id: &str) -> (anthropic: Json)
    ensures
        anthropic@ == anthropic_reply(openai@, model@, id@),
{
    let content: Vec<Json> = blocks_of_reply(openai);
    let mut result: Object = Object::new();
    result.insert("id", Json::text(id));
    result.insert("type", Json::text("message"));
    result.insert("role", Json::text("assistant"));
    result.insert("model", Json::text(model));
    result.insert("content", Json::Array(content));
    result.insert("stop_reason", Json::text(first_stop_reason(openai)));
    result.insert("stop_sequence", Json::Null);
    result.insert("usage", translate_usage(openai));
    Json::Object(result)
}

/// A reply of the OpenAI chat format, in the Anthropic messages format, under
/// a random message id.
pub fn translate_openai_to_anthropic(openai: &Json, model: &str) -> (anthropic: Json)
    ensures
        exists|id: Seq<char>| #[trigger]
            is_message_id(id) && anthropic@ == anthropic_reply(openai@, model@, id),
{
    let id: String = new_message_id();
    translate_openai_to_anthropic_with(openai, model, id.as_str())
}

// ---------------------------------------------------------------------------
// Laws
// ---------------------------------------------------------------------------

/// The names of a request's members are distinct.
proof fn lemma_member_names()
    ensures
        "model"@ != "messages"@,
        "model"@ != "max_tokens"@,
        "model"@ != "stream"@,
        "messages"@ != "max_tokens"@,
        "messages"@ != "stream"@,
        "max_tokens"@ != "stream"@,
        forall|name: Seq<char>|
            #![trigger is_basic_name(name)]
            is_basic_name(name) ==> name != "temperature"@ && name != "top_p"@ && name != "tools"@
                && name != "stream_options"@,
        "temperature"@ != "top_p"@,
        "temperature"@ != "tools"@,
        "temperature"@ != "stream_options"@,
        "top_p"@ != "tools"@,
        "top_p"@ != "stream_options"@,
        "tools"@ != "stream_options"@,
{
    reveal_strlit("model");
    reveal_strlit("messages");
    reveal_strlit("max_tokens");
    reveal_strlit("stream");
    reveal_strlit("temperature");
    reveal_strlit("top_p");
    reveal_strlit("tools");
    reveal_strlit("stream_options");
    assert("model"@.len() == 5);
    assert("messages"@.len() == 8);
    assert("max_tokens"@.len() == 10);
    assert("stream"@.len() == 6);
    assert("temperature"@.len() == 11);
    assert("top_p"@.len() == 5);
    assert("tools"@.len() == 5);
    assert("stream_options"@.len() == 14);
    assert("model"@[0] != "top_p"@[0]);
    assert("model"@[0] != "tools"@[0]);
    assert("top_p"@[2] != "tools"@[2]);
}

/// A member that every translated request has.
pub open spec fn is_basic_name(name: Seq<char>) -> bool {
    name == "model"@ || name == "messages"@ || name == "max_tokens"@ || name == "stream"@
}

/// A translated request holds what was asked for under the names of the other
/// format: model, messages and limit, the sampling options and the tools only
/// where they were given.
pub proof fn law_request_members(request: Tree)
    ensures
        openai_request(request).at("model"@) == Tree::Text(
            text_or(request.at("model"@).as_text(), "gpt-4o"@),
        ),
        openai_request(request).at("messages"@) == Tree::Array(translated_messages(request)),
        openai_request(request).at("max_tokens"@) == Tree::Int(
            match request.at("max_tokens"@).as_u64() {
                Some(n) => n as int,
                None => 4096,
            },
        ),
        openai_request(request).at("stream"@) == Tree::Bool(wants_stream(request)),
        openai_request(request).get("temperature"@) == request.get("temperature"@),
        openai_request(request).get("top_p"@) == request.get("top_p"@),
        openai_request(request).get("tools"@) == translated_tools(request),
{
    lemma_member_names();
    assert(is_basic_name("model"@) && is_basic_name("messages"@) && is_basic_name("max_tokens"@)
        && is_basic_name("stream"@));
}

/// A translated request asks for the usage of a stream exactly where it asks
/// for a stream.
pub proof fn law_stream_options(request: Tree)
    ensures
        wants_stream(openai_request(request)) == wants_stream(request),
        openai_request(request).get("stream_options"@) is Some <==> wants_stream(request),
{
    lemma_member_names();
    law_request_members(request);
    assert(is_basic_name("model"@) && is_basic_name("messages"@) && is_basic_name("max_tokens"@)
        && is_basic_name("stream"@));
}

/// The message has a role of the OpenAI format.
pub open spec fn has_known_role() -> spec_fn(Tree) -> bool {
    |made: Tree|
        made.at("role"@) == Tree::Text("system"@) || made.at("role"@) == Tree::Text("user"@)
            || made.at("role"@) == Tree::Text("assistant"@) || made.at("role"@) == Tree::Text(
            "tool"@,
        )
}

/// The names of a message's members are distinct.
proof fn lemma_message_names()
    ensures
        "role"@ != "content"@,
        "role"@ != "tool_calls"@,
        "role"@ != "tool_call_id"@,
        "content"@ != "tool_calls"@,
        "content"@ != "tool_call_id"@,
        "tool_calls"@ != "tool_call_id"@,
        "type"@ != "text"@,
        "type"@ != "image_url"@,
        "text"@ != "image_url"@,
{
    reveal_strlit("role");
    reveal_strlit("content");
    reveal_strlit("tool_calls");
    reveal_strlit("tool_call_id");
    reveal_strlit("type");
    reveal_strlit("text");
    reveal_strlit("image_url");
    assert("role"@.len() == 4);
    assert("content"@.len() == 7);
    assert("tool_calls"@.len() == 10);
    assert("tool_call_id"@.len() == 12);
    assert("type"@.len() == 4);
    assert("text"@.len() == 4);
    assert("image_url"@.len() == 9);
    assert("type"@[1] != "text"@[1]);
}

proof fn lemma_translated_roles(source: Tree, j: int)
    requires
        0 <= j < translated_message()(source).len(),
    ensures
        has_known_role()(translated_message()(source)[j]),
{
    lemma_message_names();
    match source.at("content"@) {
        Tree::Array(blocks) => {
            let replies = blocks.filter_map(block_reply());
            if j < replies.len() {
                let reply = replies[j];
                assert(replies.contains(reply));
                blocks.lemma_filter_map_contains(block_reply(), reply);
            }
        },
        _ => {},
    }
}

/// Every message of a translated request is by the system, the user, the
/// assistant or a tool.
pub proof fn law_translated_roles(request: Tree)
    ensures
        forall|i: int|
            0 <= i < translated_messages(request).len() ==> has_known_role()(
                #[trigger] translated_messages(request)[i],
            ),
{
    lemma_message_names();
    let system = system_messages(request);
    match request.at("messages"@).as_array() {
        Some(messages) => {
            assert forall|i: int, j: int|
                0 <= i < messages.len() && 0 <= j < translated_message()(
                    messages[i],
                ).len() implies has_known_role()(
                #[trigger] translated_message()(messages[i])[j],
            ) by {
                lemma_translated_roles(messages[i], j);
            }
            lemma_flat_map_all(messages, translated_message(), has_known_role());
            let others = messages.flat_map(translated_message());
            assert forall|i: int| 0 <= i < translated_messages(request).len() implies has_known_role()(
                #[trigger] translated_messages(request)[i],
            ) by {
                if i >= system.len() {
                    assert(translated_messages(request)[i] == others[i - system.len()]);
                }
            }
        },
        None => {},
    }
}

/// The message shows an image: a block of it is an image with a source, and no
/// block calls a tool.
pub open spec fn shows_image(source: Tree) -> bool {
    match source.at("content"@) {
        Tree::Array(blocks) => {
            &&& exists|i: int|
                0 <= i < blocks.len() && block_type(#[trigger] blocks[i]) == "image"@
                    && blocks[i].get("source"@) is Some
            &&& forall|i: int|
                0 <= i < blocks.len() ==> block_type(#[trigger] blocks[i]) != "tool_use"@
        },
        _ => false,
    }
}

proof fn lemma_shown_image(source: Tree)
    requires
        shows_image(source),
    ensures
        exists|j: int|
            0 <= j < translated_message()(source).len() && holds_image(
                #[trigger] translated_message()(source)[j],
            ),
{
    lemma_message_names();
    reveal_strlit("image");
    reveal_strlit("text");
    assert("image"@.len() != "text"@.len());
    reveal_strlit("image_url");
    match source.at("content"@) {
        Tree::Array(blocks) => {
            let i = choose|i: int|
                0 <= i < blocks.len() && block_type(#[trigger] blocks[i]) == "image"@
                    && blocks[i].get("source"@) is Some;
            let part = image_part(blocks[i].get("source"@)->0);
            assert(block_part()(blocks[i]) == Some(part));
            lemma_filter_map_has(blocks, block_part(), i);
            lemma_filter_map_empty(blocks, block_call());
            let parts = blocks.filter_map(block_part());
            let replies = blocks.filter_map(block_reply());
            let k = choose|k: int| 0 <= k < parts.len() && parts[k] == part;
            assert(part.at("type"@) == Tree::Text("image_url"@));
            assert("image_url"@.len() != "text"@.len());
            if parts.len() == 1 {
                assert(parts[0] == part);
            }
            let closing = message(message_role(source), Tree::Array(parts));
            assert(translated_message()(source)[replies.len() as int] == closing);
            assert(closing.at("content"@) == Tree::Array(parts));
            let list = closing.at("content"@).as_array()->0;
            assert(is_image_part(list[k]));
        },
        _ => {},
    }
}

/// The message holds no image.
spec fn holds_no_image() -> spec_fn(Tree) -> bool {
    |made: Tree| !holds_image(made)
}

proof fn lemma_no_shown_image(source: Tree, j: int)
    requires
        !shows_image(source),
        0 <= j < translated_message()(source).len(),
    ensures
        !holds_image(translated_message()(source)[j]),
{
    lemma_message_names();
    reveal_strlit("image_url");
    reveal_strlit("text");
    assert("image_url"@.len() != "text"@.len());
    let made = translated_message()(source)[j];
    match source.at("content"@) {
        Tree::Array(blocks) => {
            let replies = blocks.filter_map(block_reply());
            let parts = blocks.filter_map(block_part());
            let calls = blocks.filter_map(block_call());
            if j < replies.len() {
                assert(replies.contains(made)) by {
                    assert(replies[j] == made);
                }
                blocks.lemma_filter_map_contains(block_reply(), made);
            } else if calls.len() > 0 {
                assert(made == calling_message(parts, calls));
            } else {
                assert forall|k: int| 0 <= k < parts.len() implies !is_image_part(
                    #[trigger] parts[k],
                ) && parts[k].at("text"@).as_array() is None by {
                    assert(parts.contains(parts[k]));
                    blocks.lemma_filter_map_contains(block_part(), parts[k]);
                    let block = choose|block: Tree| #[trigger]
                        blocks.contains(block) && block_part()(block) == Some(parts[k]);
                    let i = choose|i: int| 0 <= i < blocks.len() && blocks[i] == block;
                    if block_type(blocks[i]) == "image"@ {
                        assert forall|n: int| 0 <= n < blocks.len() implies block_type(
                            #[trigger] blocks[n],
                        ) != "tool_use"@ by {
                            if block_type(blocks[n]) == "tool_use"@ {
                                lemma_filter_map_has(blocks, block_call(), n);
                            }
                        }
                    }
                }
            }
        },
        _ => {},
    }
}

/// A request is sent on as one that holds an image, so that the service is
/// told of it, exactly where one of its messages shows an image. (Beside a call
/// of a tool an image is not sent on.)
pub proof fn law_images_are_told(request: Tree)
    ensures
        has_vision(openai_request(request)) <==> match request.at("messages"@).as_array() {
            Some(messages) => exists|i: int|
                0 <= i < messages.len() && shows_image(#[trigger] messages[i]),
            None => false,
        },
{
    lemma_message_names();
    law_request_members(request);
    let system = system_messages(request);
    let list = openai_request(request).at("messages"@).as_array()->0;
    match request.at("messages"@).as_array() {
        Some(messages) => {
            let others = messages.flat_map(translated_message());
            if exists|i: int| 0 <= i < messages.len() && shows_image(#[trigger] messages[i]) {
                let i = choose|i: int|
                    0 <= i < messages.len() && shows_image(#[trigger] messages[i]);
                lemma_shown_image(messages[i]);
                let j = choose|j: int|
                    0 <= j < translated_message()(messages[i]).len() && holds_image(
                        #[trigger] translated_message()(messages[i])[j],
                    );
                let made = translated_message()(messages[i])[j];
                lemma_flat_map_has(messages, translated_message(), i, j);
                let k = choose|k: int| 0 <= k < others.len() && others[k] == made;
                assert(list[system.len() + k] == made);
            } else {
                assert forall|i: int, j: int|
                    0 <= i < messages.len() && 0 <= j < translated_message()(
                        messages[i],
                    ).len() implies holds_no_image()(
                    #[trigger] translated_message()(messages[i])[j],
                ) by {
                    lemma_no_shown_image(messages[i], j);
                }
                lemma_flat_map_all(messages, translated_message(), holds_no_image());
                assert forall|k: int| 0 <= k < list.len() implies !holds_image(
                    #[trigger] list[k],
                ) by {
                    if k >= system.len() {
                        assert(holds_no_image()(others[k - system.len()]));
                    }
                }
            }
        },
        None => {
            assert forall|k: int| 0 <= k < list.len() implies !holds_image(
                #[trigger] list[k],
            ) by {}
        },
    }
}

/// The message is by the assistant, or holds a call of a tool or its result.
pub open spec fn speaks_as_agent(source: Tree) -> bool {
    match source.at("content"@) {
        Tree::Text(_) => message_role(source) == "assistant"@,
        Tree::Array(blocks) => exists|i: int|
            0 <= i < blocks.len() && {
                ||| block_type(#[trigger] blocks[i]) == "tool_result"@
                ||| block_type(blocks[i]) == "tool_use"@
                ||| message_role(source) == "assistant"@ && block_part()(blocks[i]) is Some
            },
        _ => false,
    }
}

/// The message is not by the assistant or a tool.
spec fn is_no_agent_message() -> spec_fn(Tree) -> bool {
    |made: Tree| !is_agent_message(made)
}

/// The names of the roles are distinct.
proof fn lemma_role_names()
    ensures
        "user"@ != "assistant"@,
        "user"@ != "tool"@,
        "system"@ != "assistant"@,
        "system"@ != "tool"@,
{
    reveal_strlit("user");
    reveal_strlit("assistant");
    reveal_strlit("tool");
    reveal_strlit("system");
    assert("user"@.len() == 4);
    assert("assistant"@.len() == 9);
    assert("tool"@.len() == 4);
    assert("system"@.len() == 6);
    assert("user"@[0] != "tool"@[0]);
}

proof fn lemma_agent_speaks(source: Tree)
    requires
        speaks_as_agent(source),
    ensures
        exists|j: int|
            0 <= j < translated_message()(source).len() && is_agent_message(
                #[trigger] translated_message()(source)[j],
            ),
{
    lemma_message_names();
    lemma_role_names();
    match source.at("content"@) {
        Tree::Text(text) => {
            assert(is_agent_message(translated_message()(source)[0]));
        },
        Tree::Array(blocks) => {
            let i = choose|i: int|
                0 <= i < blocks.len() && {
                    ||| block_type(#[trigger] blocks[i]) == "tool_result"@
                    ||| block_type(blocks[i]) == "tool_use"@
                    ||| message_role(source) == "assistant"@ && block_part()(blocks[i]) is Some
                };
            let replies = blocks.filter_map(block_reply());
            let made = translated_message()(source);
            if block_type(blocks[i]) == "tool_result"@ {
                lemma_filter_map_has(blocks, block_reply(), i);
                let reply = block_reply()(blocks[i])->0;
                let k = choose|k: int| 0 <= k < replies.len() && replies[k] == reply;
                assert(made[k] == reply);
                assert(is_agent_message(made[k]));
            } else {
                if block_type(blocks[i]) == "tool_use"@ {
                    lemma_filter_map_has(blocks, block_call(), i);
                } else {
                    lemma_filter_map_has(blocks, block_part(), i);
                }
                assert(is_agent_message(made[replies.len() as int]));
            }
        },
        _ => {},
    }
}

proof fn lemma_user_speaks(source: Tree, j: int)
    requires
        !speaks_as_agent(source),
        0 <= j < translated_message()(source).len(),
    ensures
        !is_agent_message(translated_message()(source)[j]),
{
    lemma_message_names();
    lemma_role_names();
    match source.at("content"@) {
        Tree::Array(blocks) => {
            lemma_filter_map_empty(blocks, block_reply());
            lemma_filter_map_empty(blocks, block_call());
            if message_role(source) == "assistant"@ {
                lemma_filter_map_empty(blocks, block_part());
            }
        },
        _ => {},
    }
}

/// A request is sent on as one of an agent exactly where one of its messages is
/// by the assistant, or holds a call of a tool or its result.
pub proof fn law_agents_are_told(request: Tree)
    ensures
        has_agent(openai_request(request)) <==> match request.at("messages"@).as_array() {
            Some(messages) => exists|i: int|
                0 <= i < messages.len() && speaks_as_agent(#[trigger] messages[i]),
            None => false,
        },
{
    lemma_message_names();
    lemma_role_names();
    law_request_members(request);
    let system = system_messages(request);
    let list = openai_request(request).at("messages"@).as_array()->0;
    match request.at("messages"@).as_array() {
        Some(messages) => {
            let others = messages.flat_map(translated_message());
            if exists|i: int| 0 <= i < messages.len() && speaks_as_agent(#[trigger] messages[i]) {
                let i = choose|i: int|
                    0 <= i < messages.len() && speaks_as_agent(#[trigger] messages[i]);
                lemma_agent_speaks(messages[i]);
                let j = choose|j: int|
                    0 <= j < translated_message()(messages[i]).len() && is_agent_message(
                        #[trigger] translated_message()(messages[i])[j],
                    );
                let made = translated_message()(messages[i])[j];
                lemma_flat_map_has(messages, translated_message(), i, j);
                let k = choose|k: int| 0 <= k < others.len() && others[k] == made;
                assert(list[system.len() + k] == made);
            } else {
                assert forall|i: int, j: int|
                    0 <= i < messages.len() && 0 <= j < translated_message()(
                        messages[i],
                    ).len() implies is_no_agent_message()(
                    #[trigger] translated_message()(messages[i])[j],
                ) by {
                    lemma_user_speaks(messages[i], j);
                }
                lemma_flat_map_all(messages, translated_message(), is_no_agent_message());
                assert forall|k: int| 0 <= k < list.len() implies !is_agent_message(
                    #[trigger] list[k],
                ) by {
                    if k >= system.len() {
                        assert(is_no_agent_message()(others[k - system.len()]));
                    }
                }
            }
        },
        None => {
            assert forall|k: int| 0 <= k < list.len() implies !is_agent_message(
                #[trigger] list[k],
            ) by {}
        },
    }
}

/// The reason that a reply is told to have ended for is one of three.
pub proof fn law_stop_reasons(finish: Option<Seq<char>>)
    ensures
        stop_reason(finish) == "end_turn"@ || stop_reason(finish) == "max_tokens"@ || stop_reason(
            finish,
        ) == "tool_use"@,
        stop_reason(Some("stop"@)) == "end_turn"@,
        stop_reason(None) == "end_turn"@,
{
    reveal_strlit("stop");
    reveal_strlit("length");
    reveal_strlit("tool_calls");
    assert("stop"@.len() == 4);
    assert("length"@.len() == 6);
    assert("tool_calls"@.len() == 10);
}

} // verus!
