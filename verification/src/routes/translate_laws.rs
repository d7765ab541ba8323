//! What holds of every translated request and reply.

use vstd::prelude::*;
use vstd::string::*;

use crate::json::{json_parse, json_text, Tree};
use crate::routes::translate::{
    anthropic_reply, block_call, block_part, block_reply, block_text, block_texts, call_block,
    call_blocks, choice_blocks, content_blocks, flat_text, image_part, is_message_id,
    openai_request, reply_blocks, system_messages, text_part, translated_message,
    translated_messages, translated_tool, wants_stream,
};
use crate::seqs::{
    lemma_filter_map_one, lemma_filter_map_then_map, lemma_flat_map_add, lemma_flat_map_one,
    lemma_map_then_filter_map,
};
use crate::text::join;

verus! {

// ---------------------------------------------------------------------------
// Names
// ---------------------------------------------------------------------------

/// The names that the two formats use are distinct.
proof fn lemma_names()
    ensures
        "role"@.len() == 4,
        "content"@.len() == 7,
        "tool_calls"@.len() == 10,
        "tool_call_id"@.len() == 12,
        "type"@.len() == 4,
        "text"@.len() == 4,
        "image_url"@.len() == 9,
        "url"@.len() == 3,
        "id"@.len() == 2,
        "function"@.len() == 8,
        "name"@.len() == 4,
        "arguments"@.len() == 9,
        "model"@.len() == 5,
        "messages"@.len() == 8,
        "max_tokens"@.len() == 10,
        "stream"@.len() == 6,
        "temperature"@.len() == 11,
        "top_p"@.len() == 5,
        "tools"@.len() == 5,
        "stream_options"@.len() == 14,
        "description"@.len() == 11,
        "parameters"@.len() == 10,
        "include_usage"@.len() == 13,
        "input"@.len() == 5,
        "usage"@.len() == 5,
        "stop_reason"@.len() == 11,
        "stop_sequence"@.len() == 13,
        "input_tokens"@.len() == 12,
        "output_tokens"@.len() == 13,
        "cache_creation_input_tokens"@.len() == 27,
        "cache_read_input_tokens"@.len() == 23,
        "image"@.len() == 5,
        "thinking"@.len() == 8,
        "tool_use"@.len() == 8,
        "tool_result"@.len() == 11,
        "system"@.len() == 6,
        "user"@.len() == 4,
        "assistant"@.len() == 9,
        "tool"@.len() == 4,
        "role"@ != "type"@,
        "role"@ != "text"@,
        "role"@ != "name"@,
        "role"@ != "user"@,
        "role"@ != "tool"@,
        "type"@ != "text"@,
        "type"@ != "name"@,
        "type"@ != "user"@,
        "type"@ != "tool"@,
        "text"@ != "name"@,
        "text"@ != "user"@,
        "text"@ != "tool"@,
        "name"@ != "user"@,
        "name"@ != "tool"@,
        "user"@ != "tool"@,
        "model"@ != "top_p"@,
        "model"@ != "tools"@,
        "model"@ != "input"@,
        "model"@ != "usage"@,
        "model"@ != "image"@,
        "top_p"@ != "tools"@,
        "top_p"@ != "input"@,
        "top_p"@ != "usage"@,
        "top_p"@ != "image"@,
        "tools"@ != "input"@,
        "tools"@ != "usage"@,
        "tools"@ != "image"@,
        "input"@ != "usage"@,
        "input"@ != "image"@,
        "usage"@ != "image"@,
        "stream"@ != "system"@,
        "function"@ != "messages"@,
        "function"@ != "thinking"@,
        "function"@ != "tool_use"@,
        "messages"@ != "thinking"@,
        "messages"@ != "tool_use"@,
        "thinking"@ != "tool_use"@,
        "image_url"@ != "arguments"@,
        "image_url"@ != "assistant"@,
        "arguments"@ != "assistant"@,
        "tool_calls"@ != "max_tokens"@,
        "tool_calls"@ != "parameters"@,
        "max_tokens"@ != "parameters"@,
        "temperature"@ != "description"@,
        "temperature"@ != "stop_reason"@,
        "temperature"@ != "tool_result"@,
        "description"@ != "stop_reason"@,
        "description"@ != "tool_result"@,
        "stop_reason"@ != "tool_result"@,
        "tool_call_id"@ != "input_tokens"@,
        "include_usage"@ != "stop_sequence"@,
        "include_usage"@ != "output_tokens"@,
        "stop_sequence"@ != "output_tokens"@,
{
    reveal_strlit("role");
    reveal_strlit("content");
    reveal_strlit("tool_calls");
    reveal_strlit("tool_call_id");
    reveal_strlit("type");
    reveal_strlit("text");
    reveal_strlit("image_url");
    reveal_strlit("url");
    reveal_strlit("id");
    reveal_strlit("function");
    reveal_strlit("name");
    reveal_strlit("arguments");
    reveal_strlit("model");
    reveal_strlit("messages");
    reveal_strlit("max_tokens");
    reveal_strlit("stream");
    reveal_strlit("temperature");
    reveal_strlit("top_p");
    reveal_strlit("tools");
    reveal_strlit("stream_options");
    reveal_strlit("description");
    reveal_strlit("parameters");
    reveal_strlit("include_usage");
    reveal_strlit("input");
    reveal_strlit("usage");
    reveal_strlit("stop_reason");
    reveal_strlit("stop_sequence");
    reveal_strlit("input_tokens");
    reveal_strlit("output_tokens");
    reveal_strlit("cache_creation_input_tokens");
    reveal_strlit("cache_read_input_tokens");
    reveal_strlit("image");
    reveal_strlit("thinking");
    reveal_strlit("tool_use");
    reveal_strlit("tool_result");
    reveal_strlit("system");
    reveal_strlit("user");
    reveal_strlit("assistant");
    reveal_strlit("tool");
    assert("role"@.len() == 4);
    assert("content"@.len() == 7);
    assert("tool_calls"@.len() == 10);
    assert("tool_call_id"@.len() == 12);
    assert("type"@.len() == 4);
    assert("text"@.len() == 4);
    assert("image_url"@.len() == 9);
    assert("url"@.len() == 3);
    assert("id"@.len() == 2);
    assert("function"@.len() == 8);
    assert("name"@.len() == 4);
    assert("arguments"@.len() == 9);
    assert("model"@.len() == 5);
    assert("messages"@.len() == 8);
    assert("max_tokens"@.len() == 10);
    assert("stream"@.len() == 6);
    assert("temperature"@.len() == 11);
    assert("top_p"@.len() == 5);
    assert("tools"@.len() == 5);
    assert("stream_options"@.len() == 14);
    assert("description"@.len() == 11);
    assert("parameters"@.len() == 10);
    assert("include_usage"@.len() == 13);
    assert("input"@.len() == 5);
    assert("usage"@.len() == 5);
    assert("stop_reason"@.len() == 11);
    assert("stop_sequence"@.len() == 13);
    assert("input_tokens"@.len() == 12);
    assert("output_tokens"@.len() == 13);
    assert("cache_creation_input_tokens"@.len() == 27);
    assert("cache_read_input_tokens"@.len() == 23);
    assert("image"@.len() == 5);
    assert("thinking"@.len() == 8);
    assert("tool_use"@.len() == 8);
    assert("tool_result"@.len() == 11);
    assert("system"@.len() == 6);
    assert("user"@.len() == 4);
    assert("assistant"@.len() == 9);
    assert("tool"@.len() == 4);
    assert("role"@[0] != "type"@[0]);
    assert("role"@[0] != "text"@[0]);
    assert("role"@[0] != "name"@[0]);
    assert("role"@[0] != "user"@[0]);
    assert("role"@[0] != "tool"@[0]);
    assert("type"@[1] != "text"@[1]);
    assert("type"@[0] != "name"@[0]);
    assert("type"@[0] != "user"@[0]);
    assert("type"@[1] != "tool"@[1]);
    assert("text"@[0] != "name"@[0]);
    assert("text"@[0] != "user"@[0]);
    assert("text"@[1] != "tool"@[1]);
    assert("name"@[0] != "user"@[0]);
    assert("name"@[0] != "tool"@[0]);
    assert("user"@[0] != "tool"@[0]);
    assert("model"@[0] != "top_p"@[0]);
    assert("model"@[0] != "tools"@[0]);
    assert("model"@[0] != "input"@[0]);
    assert("model"@[0] != "usage"@[0]);
    assert("model"@[0] != "image"@[0]);
    assert("top_p"@[2] != "tools"@[2]);
    assert("top_p"@[0] != "input"@[0]);
    assert("top_p"@[0] != "usage"@[0]);
    assert("top_p"@[0] != "image"@[0]);
    assert("tools"@[0] != "input"@[0]);
    assert("tools"@[0] != "usage"@[0]);
    assert("tools"@[0] != "image"@[0]);
    assert("input"@[0] != "usage"@[0]);
    assert("input"@[1] != "image"@[1]);
    assert("usage"@[0] != "image"@[0]);
    assert("stream"@[1] != "system"@[1]);
    assert("function"@[0] != "messages"@[0]);
    assert("function"@[0] != "thinking"@[0]);
    assert("function"@[0] != "tool_use"@[0]);
    assert("messages"@[0] != "thinking"@[0]);
    assert("messages"@[0] != "tool_use"@[0]);
    assert("thinking"@[1] != "tool_use"@[1]);
    assert("image_url"@[0] != "arguments"@[0]);
    assert("image_url"@[0] != "assistant"@[0]);
    assert("arguments"@[1] != "assistant"@[1]);
    assert("tool_calls"@[0] != "max_tokens"@[0]);
    assert("tool_calls"@[0] != "parameters"@[0]);
    assert("max_tokens"@[0] != "parameters"@[0]);
    assert("temperature"@[0] != "description"@[0]);
    assert("temperature"@[0] != "stop_reason"@[0]);
    assert("temperature"@[1] != "tool_result"@[1]);
    assert("description"@[0] != "stop_reason"@[0]);
    assert("description"@[0] != "tool_result"@[0]);
    assert("stop_reason"@[0] != "tool_result"@[0]);
    assert("tool_call_id"@[0] != "input_tokens"@[0]);
    assert("include_usage"@[0] != "stop_sequence"@[0]);
    assert("include_usage"@[0] != "output_tokens"@[0]);
    assert("stop_sequence"@[0] != "output_tokens"@[0]);
}

// ---------------------------------------------------------------------------
// Requests
// ---------------------------------------------------------------------------

/// The messages that are sent on for a request.
pub open spec fn sent_messages(request: Tree) -> Seq<Tree> {
    match openai_request(request).at("messages"@) {
        Tree::Array(list) => list,
        _ => seq![],
    }
}

/// Texts as one, each on a line of its own.
pub open spec fn lined(texts: Seq<Seq<char>>) -> Seq<char>
    decreases texts.len(),
{
    if texts.len() == 0 {
        seq![]
    } else if texts.len() == 1 {
        texts[0]
    } else {
        texts[0] + "\n"@ + lined(texts.drop_first())
    }
}

proof fn lemma_lined_last(texts: Seq<Seq<char>>)
    requires
        texts.len() >= 2,
    ensures
        lined(texts) == lined(texts.drop_last()) + "\n"@ + texts.last(),
    decreases texts.len(),
{
    let rest = texts.drop_first();
    if texts.len() == 2 {
        assert(lined(rest) == texts[1]);
        assert(lined(texts.drop_last()) == texts[0]);
    } else {
        lemma_lined_last(rest);
        assert(rest.drop_last() =~= texts.drop_last().drop_first());
        assert(texts.drop_last()[0] == texts[0]);
        assert(lined(texts) =~= lined(texts.drop_last()) + "\n"@ + texts.last());
    }
}

/// Joined by line feeds, texts stand each on a line of its own.
proof fn lemma_joined(texts: Seq<Seq<char>>)
    ensures
        join(texts, "\n"@) == lined(texts),
    decreases texts.len(),
{
    if texts.len() >= 2 {
        lemma_joined(texts.drop_last());
        lemma_lined_last(texts);
    }
}

/// The text that a block holds.
pub open spec fn text_in() -> spec_fn(Tree) -> Option<Seq<char>> {
    |block: Tree|
        match block.at("text"@) {
            Tree::Text(text) => Some(text),
            _ => None,
        }
}

/// What content says: a text, or the texts of blocks, each on a line of its own.
pub open spec fn said_text(content: Tree) -> Seq<char> {
    match content {
        Tree::Text(text) => text,
        Tree::Array(blocks) => lined(blocks.filter_map(text_in())),
        _ => seq![],
    }
}

proof fn lemma_said_text(content: Tree)
    ensures
        flat_text(content) == said_text(content),
{
    assert(block_text() =~= text_in());
    match content {
        Tree::Array(blocks) => lemma_joined(block_texts(blocks)),
        _ => {},
    }
}

/// What is sent on are the system's message and those of the others.
proof fn lemma_sent(request: Tree)
    ensures
        openai_request(request).at("messages"@) == Tree::Array(translated_messages(request)),
        sent_messages(request) == system_messages(request) + match request.at("messages"@) {
            Tree::Array(messages) => messages.flat_map(translated_message()),
            _ => seq![],
        },
{
    lemma_names();
}

/// The system prompt is the first message that is sent on, whatever else the
/// request holds; behind it comes what is sent on without it. An empty prompt
/// is not sent on.
pub proof fn law_system_prompt_comes_first(request: Tree, unprompted: Tree)
    requires
        unprompted.at("messages"@) == request.at("messages"@),
        said_text(unprompted.at("system"@)).len() == 0,
    ensures
        sent_messages(request) == if said_text(request.at("system"@)).len() > 0 {
            seq![
                Tree::Object(
                    map![
                        "role"@ => Tree::Text("system"@),
                        "content"@ => Tree::Text(said_text(request.at("system"@))),
                    ],
                ),
            ] + sent_messages(unprompted)
        } else {
            sent_messages(unprompted)
        },
{
    lemma_sent(request);
    lemma_sent(unprompted);
    lemma_said_text(request.at("system"@));
    lemma_said_text(unprompted.at("system"@));
    assert(sent_messages(request) =~= system_messages(request) + sent_messages(unprompted));
}

/// A system prompt that is a text is sent on as it is, and first.
pub proof fn law_system_text_is_kept(request: Tree, prompt: Seq<char>)
    requires
        request.at("system"@) == Tree::Text(prompt),
        prompt.len() > 0,
    ensures
        sent_messages(request).len() > 0,
        sent_messages(request)[0].at("role"@) == Tree::Text("system"@),
        sent_messages(request)[0].at("content"@) == Tree::Text(prompt),
{
    lemma_names();
    lemma_sent(request);
}

/// Messages are sent on one after the other: what is sent on for two lists in a
/// row is what is sent on for the first, and then what is sent on for the second.
pub proof fn law_messages_keep_their_order(
    whole: Tree,
    front: Tree,
    back: Tree,
    first: Seq<Tree>,
    second: Seq<Tree>,
)
    requires
        whole.at("messages"@) == Tree::Array(first + second),
        front.at("messages"@) == Tree::Array(first),
        back.at("messages"@) == Tree::Array(second),
        whole.at("system"@) == front.at("system"@),
        said_text(back.at("system"@)).len() == 0,
    ensures
        sent_messages(whole) == sent_messages(front) + sent_messages(back),
{
    lemma_sent(whole);
    lemma_sent(front);
    lemma_sent(back);
    lemma_said_text(back.at("system"@));
    lemma_flat_map_add(first, second, translated_message());
    assert(sent_messages(whole) =~= sent_messages(front) + sent_messages(back));
}

/// Without a system prompt and messages nothing is sent on.
pub proof fn law_nothing_is_made_up(request: Tree)
    requires
        said_text(request.at("system"@)).len() == 0,
        match request.at("messages"@) {
            Tree::Array(messages) => messages.len() == 0,
            _ => true,
        },
    ensures
        sent_messages(request).len() == 0,
{
    lemma_sent(request);
    lemma_said_text(request.at("system"@));
    match request.at("messages"@) {
        Tree::Array(messages) => {
            assert(messages.flat_map(translated_message()) =~= seq![]);
        },
        _ => {},
    }
}

/// The request holds that message, and nothing of the system's.
pub open spec fn holds_one(request: Tree, source: Tree) -> bool {
    &&& said_text(request.at("system"@)).len() == 0
    &&& request.at("messages"@) == Tree::Array(seq![source])
}

proof fn lemma_sent_one(request: Tree, source: Tree)
    requires
        holds_one(request, source),
    ensures
        sent_messages(request) == translated_message()(source),
{
    lemma_sent(request);
    lemma_said_text(request.at("system"@));
    lemma_flat_map_one(source, translated_message());
    assert(sent_messages(request) =~= translated_message()(source));
}

/// The role of a message: the assistant's is kept, all others are the user's.
pub open spec fn sent_role(source: Tree) -> Tree {
    if source.at("role"@) == Tree::Text("assistant"@) {
        Tree::Text("assistant"@)
    } else {
        Tree::Text("user"@)
    }
}

/// A message whose content is a text is sent on with that text; one whose
/// content is neither text nor blocks is not sent on.
pub proof fn law_texts_are_sent_on(request: Tree, source: Tree)
    requires
        holds_one(request, source),
        !(source.at("content"@) is Array),
    ensures
        match source.at("content"@) {
            Tree::Text(text) => sent_messages(request) == seq![
                Tree::Object(
                    map!["role"@ => sent_role(source), "content"@ => Tree::Text(text)],
                ),
            ],
            _ => sent_messages(request).len() == 0,
        },
{
    lemma_names();
    lemma_sent_one(request, source);
}

/// A block of that type.
pub open spec fn is_of_type(block: Tree, kind: Seq<char>) -> bool {
    block.at("type"@) == Tree::Text(kind)
}

/// What a block shows: whether it is an image, and its text or its address. A
/// block without a type is text.
pub open spec fn shown_by() -> spec_fn(Tree) -> Option<(bool, Seq<char>)> {
    |block: Tree|
        if is_of_type(block, "text"@) || !(block.at("type"@) is Text) {
            match block.at("text"@) {
                Tree::Text(text) => Some((false, text)),
                _ => Some((false, seq![])),
            }
        } else if is_of_type(block, "thinking"@) {
            match block.at("thinking"@) {
                Tree::Text(text) => Some((false, text)),
                _ => None,
            }
        } else if is_of_type(block, "image"@) {
            match block.get("source"@) {
                Some(source) => Some(
                    (
                        true,
                        "data:"@ + (match source.at("media_type"@) {
                            Tree::Text(media) => media,
                            _ => "image/png"@,
                        }) + ";base64,"@ + (match source.at("data"@) {
                            Tree::Text(data) => data,
                            _ => seq![],
                        }),
                    ),
                ),
                None => None,
            }
        } else {
            None
        }
}

/// The part of a message that shows something.
pub open spec fn showing() -> spec_fn((bool, Seq<char>)) -> Tree {
    |shown: (bool, Seq<char>)|
        if shown.0 {
            Tree::Object(
                map![
                    "type"@ => Tree::Text("image_url"@),
                    "image_url"@ => Tree::Object(map!["url"@ => Tree::Text(shown.1)]),
                ],
            )
        } else {
            Tree::Object(
                map!["type"@ => Tree::Text("text"@), "text"@ => Tree::Text(shown.1)],
            )
        }
}

/// The text of what is shown, where it is no image.
pub open spec fn spoken() -> spec_fn((bool, Seq<char>)) -> Option<Seq<char>> {
    |shown: (bool, Seq<char>)|
        if shown.0 {
            None
        } else {
            Some(shown.1)
        }
}

/// The tool that a block uses: the id of the use, the tool's name, and the text
/// of what it is called with.
pub open spec fn used_by() -> spec_fn(Tree) -> Option<(Tree, Tree, Seq<char>)> {
    |block: Tree|
        if is_of_type(block, "tool_use"@) {
            Some(
                (
                    block.at("id"@),
                    block.at("name"@),
                    match block.get("input"@) {
                        Some(input) => json_text(input),
                        None => json_text(Tree::Object(Map::empty())),
                    },
                ),
            )
        } else {
            None
        }
}

/// The call of a tool.
pub open spec fn calling() -> spec_fn((Tree, Tree, Seq<char>)) -> Tree {
    |used: (Tree, Tree, Seq<char>)|
        Tree::Object(
            map![
                "id"@ => used.0,
                "type"@ => Tree::Text("function"@),
                "function"@ => Tree::Object(
                    map!["name"@ => used.1, "arguments"@ => Tree::Text(used.2)],
                ),
            ],
        )
}

/// The result of a tool that a block gives: the id of the use, and what the tool
/// said.
pub open spec fn given_by() -> spec_fn(Tree) -> Option<(Tree, Seq<char>)> {
    |block: Tree|
        if is_of_type(block, "tool_result"@) {
            Some((block.at("tool_use_id"@), said_text(block.at("content"@))))
        } else {
            None
        }
}

/// The message of a tool.
pub open spec fn replying() -> spec_fn((Tree, Seq<char>)) -> Tree {
    |given: (Tree, Seq<char>)|
        Tree::Object(
            map![
                "role"@ => Tree::Text("tool"@),
                "tool_call_id"@ => given.0,
                "content"@ => Tree::Text(given.1),
            ],
        )
}

proof fn lemma_blocks(blocks: Seq<Tree>)
    ensures
        blocks.filter_map(block_part()) == blocks.filter_map(shown_by()).map_values(showing()),
        blocks.filter_map(block_call()) == blocks.filter_map(used_by()).map_values(calling()),
        blocks.filter_map(block_reply()) == blocks.filter_map(given_by()).map_values(replying()),
        block_texts(blocks.filter_map(block_part())) == blocks.filter_map(shown_by()).filter_map(
            spoken(),
        ),
{
    lemma_names();
    reveal_strlit("");
    assert(""@ =~= seq![]);
    assert forall|block: Tree| #[trigger] block_part()(block) == match shown_by()(block) {
        Some(shown) => Some(showing()(shown)),
        None => None,
    } by {
        match block.get("source"@) {
            Some(source) => {
                assert(image_part(source).at("type"@) == Tree::Text("image_url"@));
            },
            None => {},
        }
    }
    assert forall|block: Tree| #[trigger] block_reply()(block) == match given_by()(block) {
        Some(given) => Some(replying()(given)),
        None => None,
    } by {
        lemma_said_text(block.at("content"@));
    }
    assert forall|block: Tree| #[trigger] block_call()(block) == match used_by()(block) {
        Some(used) => Some(calling()(used)),
        None => None,
    } by {}
    lemma_filter_map_then_map(blocks, shown_by(), showing(), block_part());
    lemma_filter_map_then_map(blocks, used_by(), calling(), block_call());
    lemma_filter_map_then_map(blocks, given_by(), replying(), block_reply());
    assert forall|shown: (bool, Seq<char>)| block_text()(#[trigger] showing()(shown)) == spoken()(
        shown,
    ) by {}
    lemma_map_then_filter_map(blocks.filter_map(shown_by()), showing(), block_text(), spoken());
}

/// A message whose content is blocks is sent on whole. First come the results of
/// tools, each as a message of its own. Then comes one message with all calls of
/// tools and the texts beside them; or where no tool is called, with all that is
/// shown, in order, a single text as a text. Nothing else is sent on.
pub proof fn law_blocks_are_sent_on(request: Tree, source: Tree, blocks: Seq<Tree>)
    requires
        holds_one(request, source),
        source.at("content"@) == Tree::Array(blocks),
    ensures
        ({
            let shown = blocks.filter_map(shown_by());
            let used = blocks.filter_map(used_by());
            let beside = lined(shown.filter_map(spoken()));
            let results = blocks.filter_map(given_by()).map_values(replying());
            sent_messages(request) == results + if used.len() > 0 && beside.len() > 0 {
                seq![
                    Tree::Object(
                        map![
                            "role"@ => Tree::Text("assistant"@),
                            "tool_calls"@ => Tree::Array(used.map_values(calling())),
                            "content"@ => Tree::Text(beside),
                        ],
                    ),
                ]
            } else if used.len() > 0 {
                seq![
                    Tree::Object(
                        map![
                            "role"@ => Tree::Text("assistant"@),
                            "tool_calls"@ => Tree::Array(used.map_values(calling())),
                        ],
                    ),
                ]
            } else if shown.len() == 1 && !shown[0].0 {
                seq![
                    Tree::Object(
                        map!["role"@ => sent_role(source), "content"@ => Tree::Text(shown[0].1)],
                    ),
                ]
            } else if shown.len() > 0 {
                seq![
                    Tree::Object(
                        map![
                            "role"@ => sent_role(source),
                            "content"@ => Tree::Array(shown.map_values(showing())),
                        ],
                    ),
                ]
            } else {
                seq![]
            }
        }),
{
    lemma_names();
    lemma_sent_one(request, source);
    lemma_blocks(blocks);
    let shown = blocks.filter_map(shown_by());
    lemma_joined(shown.filter_map(spoken()));
    if shown.len() == 1 {
        let part = showing()(shown[0]);
        assert(blocks.filter_map(block_part())[0] == part);
        assert(part.at("type"@) == if shown[0].0 {
            Tree::Text("image_url"@)
        } else {
            Tree::Text("text"@)
        });
    }
}

/// A block of text, an image, a call of a tool and its result are each sent on,
/// wherever they stand in their message.
pub proof fn law_no_block_is_lost(request: Tree, source: Tree, blocks: Seq<Tree>, i: int)
    requires
        holds_one(request, source),
        source.at("content"@) == Tree::Array(blocks),
        0 <= i < blocks.len(),
    ensures
        is_of_type(blocks[i], "tool_result"@) ==> exists|k: int|
            0 <= k < sent_messages(request).len() && (#[trigger] sent_messages(request)[k]).at(
                "tool_call_id"@,
            ) == blocks[i].at("tool_use_id"@) && sent_messages(request)[k].at("content"@)
                == Tree::Text(said_text(blocks[i].at("content"@))),
        is_of_type(blocks[i], "tool_use"@) ==> sent_messages(request).len() > 0 && (
        sent_messages(request).last().at("tool_calls"@) matches Tree::Array(calls) && exists|
            k: int,
        |
            0 <= k < calls.len() && (#[trigger] calls[k]).at("id"@) == blocks[i].at("id"@)
                && calls[k].at("function"@).at("name"@) == blocks[i].at("name"@)),
{
    lemma_names();
    law_blocks_are_sent_on(request, source, blocks);
    let all = sent_messages(request);
    if is_of_type(blocks[i], "tool_result"@) {
        crate::seqs::lemma_filter_map_has(blocks, given_by(), i);
        let given = blocks.filter_map(given_by());
        let one = given_by()(blocks[i])->0;
        let k = choose|k: int| 0 <= k < given.len() && given[k] == one;
        assert(all[k] == replying()(one));
    }
    if is_of_type(blocks[i], "tool_use"@) {
        crate::seqs::lemma_filter_map_has(blocks, used_by(), i);
        let used = blocks.filter_map(used_by());
        let one = used_by()(blocks[i])->0;
        let k = choose|k: int| 0 <= k < used.len() && used[k] == one;
        let calls = all.last().at("tool_calls"@)->Array_0;
        assert(calls == used.map_values(calling()));
        assert(calls[k] == calling()(one));
    }
}

/// The tools of a request are declared one by one, in order, each under its own
/// name; a request that lists none declares none.
pub proof fn law_tools_are_declared(request: Tree)
    ensures
        match request.at("tools"@) {
            Tree::Array(tools) => openai_request(request).at("tools"@) matches Tree::Array(made)
                && made.len() == tools.len() && forall|i: int|
                0 <= i < tools.len() ==> #[trigger] made[i] == Tree::Object(
                    map![
                        "type"@ => Tree::Text("function"@),
                        "function"@ => Tree::Object(
                            map![
                                "name"@ => tools[i].at("name"@),
                                "description"@ => if tools[i].get("description"@) is Some {
                                    tools[i].at("description"@)
                                } else {
                                    Tree::Text(""@)
                                },
                                "parameters"@ => if tools[i].get("input_schema"@) is Some {
                                    tools[i].at("input_schema"@)
                                } else {
                                    Tree::Object(Map::empty())
                                },
                            ],
                        ),
                    ],
                ),
            _ => openai_request(request).get("tools"@) is None,
        },
{
    lemma_names();
    match request.at("tools"@) {
        Tree::Array(tools) => {
            let made = openai_request(request).at("tools"@)->Array_0;
            assert(made == tools.map_values(translated_tool()));
            assert forall|i: int| 0 <= i < tools.len() implies #[trigger] made[i]
                == translated_tool()(tools[i]) by {}
        },
        _ => {},
    }
}

/// The options of a request are sent on as they are, and only where they are
/// given: the model and the limit of tokens with a default, the sampling as it
/// is, and the usage of a stream asked for with a stream.
pub proof fn law_options_are_sent_on(request: Tree)
    ensures
        openai_request(request).at("model"@) == if request.at("model"@) is Text {
            request.at("model"@)
        } else {
            Tree::Text("gpt-4o"@)
        },
        openai_request(request).at("max_tokens"@) == match request.at("max_tokens"@) {
            Tree::Int(n) => if 0 <= n <= u64::MAX {
                Tree::Int(n)
            } else {
                Tree::Int(4096)
            },
            _ => Tree::Int(4096),
        },
        openai_request(request).at("stream"@) == Tree::Bool(
            request.at("stream"@) == Tree::Bool(true),
        ),
        openai_request(request).get("temperature"@) == request.get("temperature"@),
        openai_request(request).get("top_p"@) == request.get("top_p"@),
        openai_request(request).get("stream_options"@) == if request.at("stream"@) == Tree::Bool(
            true,
        ) {
            Some(Tree::Object(map!["include_usage"@ => Tree::Bool(true)]))
        } else {
            None
        },
        openai_request(request).at("messages"@) is Array,
        wants_stream(request) <==> request.at("stream"@) == Tree::Bool(true),
        forall|name: Seq<char>| #[trigger]
            openai_request(request).get(name) is Some ==> name == "model"@ || name == "messages"@
                || name == "max_tokens"@ || name == "stream"@ || name == "temperature"@ || name
                == "top_p"@ || name == "tools"@ || name == "stream_options"@,
{
    lemma_names();
}

// ---------------------------------------------------------------------------
// Replies
// ---------------------------------------------------------------------------

/// The content of the message that a reply becomes.
pub open spec fn told_content(reply: Tree, model: Seq<char>, id: Seq<char>) -> Seq<Tree> {
    match anthropic_reply(reply, model, id).at("content"@) {
        Tree::Array(blocks) => blocks,
        _ => seq![],
    }
}

/// The text that a choice says, where it says any.
pub open spec fn said_by() -> spec_fn(Tree) -> Option<Seq<char>> {
    |choice: Tree|
        match choice.at("message"@).at("content"@) {
            Tree::Text(text) => if text.len() > 0 {
                Some(text)
            } else {
                None
            },
            _ => None,
        }
}

/// The tool calls of a choice.
pub open spec fn calls_by() -> spec_fn(Tree) -> Seq<Tree> {
    |choice: Tree|
        match choice.at("message"@).at("tool_calls"@) {
            Tree::Array(calls) => calls,
            _ => seq![],
        }
}

/// The text that a block of a message tells, where it is text.
pub open spec fn told_text() -> spec_fn(Tree) -> Option<Seq<char>> {
    |block: Tree|
        match block.at("text"@) {
            Tree::Text(text) => if is_of_type(block, "text"@) {
                Some(text)
            } else {
                None
            },
            _ => None,
        }
}

/// The use of a tool that a block of a message tells: its id, the tool's name,
/// and what it is called with.
pub open spec fn told_use() -> spec_fn(Tree) -> Option<(Tree, Tree, Tree)> {
    |block: Tree|
        if is_of_type(block, "tool_use"@) {
            Some((block.at("id"@), block.at("name"@), block.at("input"@)))
        } else {
            None
        }
}

/// The use of a tool that a call asks for: arguments that are no JSON count as
/// none.
pub open spec fn asked_use() -> spec_fn(Tree) -> Option<(Tree, Tree, Tree)> {
    |call: Tree|
        Some(
            (
                call.at("id"@),
                call.at("function"@).at("name"@),
                match json_parse(
                    match call.at("function"@).at("arguments"@) {
                        Tree::Text(arguments) => arguments,
                        _ => "{}"@,
                    },
                ) {
                    Some(input) => input,
                    None => Tree::Object(Map::empty()),
                },
            ),
        )
}

proof fn lemma_told(reply: Tree, model: Seq<char>, id: Seq<char>)
    ensures
        told_content(reply, model, id) == match reply.at("choices"@) {
            Tree::Array(choices) => choices.flat_map(choice_blocks()),
            _ => seq![],
        },
{
    lemma_names();
    assert(anthropic_reply(reply, model, id).at("content"@) == Tree::Array(reply_blocks(reply)));
}

/// What a block of the content may be: a text or the use of a tool, and nothing
/// beside.
pub open spec fn is_plain_block(block: Tree) -> bool {
    ||| (block.at("text"@) matches Tree::Text(text) && text.len() > 0 && block == Tree::Object(
        map!["type"@ => Tree::Text("text"@), "text"@ => block.at("text"@)],
    ))
    ||| block == Tree::Object(
        map![
            "type"@ => Tree::Text("tool_use"@),
            "id"@ => block.at("id"@),
            "name"@ => block.at("name"@),
            "input"@ => block.at("input"@),
        ],
    )
}

proof fn lemma_choice_told(choice: Tree)
    ensures
        choice_blocks()(choice).filter_map(told_text()) == seq![choice].filter_map(said_by()),
        choice_blocks()(choice).filter_map(told_use()) == calls_by()(choice).filter_map(
            asked_use(),
        ),
{
    lemma_names();
    let texts = content_blocks(choice.at("message"@).at("content"@));
    let calls = call_blocks(choice.at("message"@).at("tool_calls"@));
    let listed = calls_by()(choice);
    crate::seqs::lemma_filter_map_add(texts, calls, told_text());
    crate::seqs::lemma_filter_map_add(texts, calls, told_use());
    assert(calls =~= listed.map_values(call_block()));
    assert forall|call: Tree| told_text()(#[trigger] call_block()(call)) is None && told_use()(
        call_block()(call),
    ) == asked_use()(call) by {}
    crate::seqs::lemma_filter_map_empty(calls, told_text());
    lemma_map_then_filter_map(listed, call_block(), told_use(), asked_use());
    lemma_filter_map_one(choice, said_by());
    match said_by()(choice) {
        Some(text) => {
            assert(texts =~= seq![text_part(text)]);
            lemma_filter_map_one(text_part(text), told_text());
            lemma_filter_map_one(text_part(text), told_use());
        },
        None => {
            assert(texts =~= seq![]);
        },
    }
    assert(choice_blocks()(choice) == texts + calls);
    assert(choice_blocks()(choice).filter_map(told_text()) =~= seq![choice].filter_map(said_by()));
    assert(choice_blocks()(choice).filter_map(told_use()) =~= listed.filter_map(asked_use()));
}

proof fn lemma_choices_told(choices: Seq<Tree>)
    ensures
        choices.flat_map(choice_blocks()).filter_map(told_text()) == choices.filter_map(said_by()),
        choices.flat_map(choice_blocks()).filter_map(told_use()) == choices.flat_map(
            calls_by(),
        ).filter_map(asked_use()),
    decreases choices.len(),
{
    if choices.len() == 0 {
        assert(choices.flat_map(choice_blocks()) =~= seq![]);
        assert(choices.flat_map(calls_by()) =~= seq![]);
        assert(choices.flat_map(choice_blocks()).filter_map(told_text()) =~= choices.filter_map(
            said_by(),
        ));
    } else {
        let rest = choices.drop_last();
        let last = choices.last();
        assert(choices =~= rest + seq![last]);
        lemma_choices_told(rest);
        lemma_choice_told(last);
        lemma_flat_map_add(rest, seq![last], choice_blocks());
        lemma_flat_map_add(rest, seq![last], calls_by());
        lemma_flat_map_one(last, choice_blocks());
        lemma_flat_map_one(last, calls_by());
        crate::seqs::lemma_filter_map_add(rest, seq![last], said_by());
        crate::seqs::lemma_filter_map_add(
            rest.flat_map(choice_blocks()),
            choice_blocks()(last),
            told_text(),
        );
        crate::seqs::lemma_filter_map_add(
            rest.flat_map(choice_blocks()),
            choice_blocks()(last),
            told_use(),
        );
        crate::seqs::lemma_filter_map_add(
            rest.flat_map(calls_by()),
            calls_by()(last),
            asked_use(),
        );
    }
}

/// Nothing that a reply says is lost or made up: the texts of the message are,
/// in order, the texts of the choices that are not empty, whether or not a choice
/// calls tools; and its uses of tools are, in order, the calls of the choices.
pub proof fn law_reply_is_told(reply: Tree, model: Seq<char>, id: Seq<char>, choices: Seq<Tree>)
    requires
        reply.at("choices"@) == Tree::Array(choices),
    ensures
        told_content(reply, model, id).filter_map(told_text()) == choices.filter_map(said_by()),
        told_content(reply, model, id).filter_map(told_use()) == choices.flat_map(
            calls_by(),
        ).filter_map(asked_use()),
{
    lemma_told(reply, model, id);
    lemma_choices_told(choices);
}

/// The content of a message holds texts and uses of tools, and nothing else.
pub proof fn law_content_is_plain(reply: Tree, model: Seq<char>, id: Seq<char>)
    ensures
        forall|i: int|
            0 <= i < told_content(reply, model, id).len() ==> is_plain_block(
                #[trigger] told_content(reply, model, id)[i],
            ),
{
    lemma_names();
    lemma_told(reply, model, id);
    match reply.at("choices"@) {
        Tree::Array(choices) => {
            let plain = |block: Tree| is_plain_block(block);
            assert forall|i: int, j: int|
                0 <= i < choices.len() && 0 <= j < choice_blocks()(choices[i]).len() implies plain(
                #[trigger] choice_blocks()(choices[i])[j],
            ) by {
                let block = choice_blocks()(choices[i])[j];
                let texts = content_blocks(choices[i].at("message"@).at("content"@));
                let calls = call_blocks(choices[i].at("message"@).at("tool_calls"@));
                if j < texts.len() {
                    let text = choices[i].at("message"@).at("content"@)->Text_0;
                    assert(block == text_part(text));
                } else {
                    let listed = choices[i].at("message"@).at("tool_calls"@)->Array_0;
                    assert(block == calls[j - texts.len()]);
                    assert(block == call_block()(listed[j - texts.len()]));
                }
            }
            crate::seqs::lemma_flat_map_all(choices, choice_blocks(), plain);
            assert forall|i: int| 0 <= i < told_content(reply, model, id).len() implies is_plain_block(
                #[trigger] told_content(reply, model, id)[i],
            ) by {
                assert(plain(choices.flat_map(choice_blocks())[i]));
            }
        },
        _ => {},
    }
}

/// Choices are told one after the other, and the text of a choice comes before
/// its calls.
pub proof fn law_choices_keep_their_order(
    whole: Tree,
    front: Tree,
    back: Tree,
    first: Seq<Tree>,
    second: Seq<Tree>,
    model: Seq<char>,
    id: Seq<char>,
)
    requires
        whole.at("choices"@) == Tree::Array(first + second),
        front.at("choices"@) == Tree::Array(first),
        back.at("choices"@) == Tree::Array(second),
    ensures
        told_content(whole, model, id) == told_content(front, model, id) + told_content(
            back,
            model,
            id,
        ),
        second.len() == 1 && said_by()(second[0]) is Some ==> told_content(back, model, id).len()
            > 0 && told_text()(told_content(back, model, id)[0]) == said_by()(second[0]),
{
    lemma_names();
    lemma_told(whole, model, id);
    lemma_told(front, model, id);
    lemma_told(back, model, id);
    lemma_flat_map_add(first, second, choice_blocks());
    if second.len() == 1 {
        lemma_flat_map_one(second[0], choice_blocks());
        assert(second =~= seq![second[0]]);
        if said_by()(second[0]) is Some {
            let text = said_by()(second[0])->0;
            assert(told_content(back, model, id)[0] == text_part(text));
        }
    }
}

/// A message tells who speaks, for which model, why it ended, and what it cost.
/// The reason is that of the first choice.
pub proof fn law_reply_members(reply: Tree, model: Seq<char>, id: Seq<char>)
    ensures
        anthropic_reply(reply, model, id).at("id"@) == Tree::Text(id),
        anthropic_reply(reply, model, id).at("type"@) == Tree::Text("message"@),
        anthropic_reply(reply, model, id).at("role"@) == Tree::Text("assistant"@),
        anthropic_reply(reply, model, id).at("model"@) == Tree::Text(model),
        anthropic_reply(reply, model, id).get("stop_sequence"@) == Some(Tree::Null),
        anthropic_reply(reply, model, id).at("content"@) is Array,
        !(reply.at("choices"@) is Array) ==> told_content(reply, model, id).len() == 0,
        forall|name: Seq<char>| #[trigger]
            anthropic_reply(reply, model, id).get(name) is Some ==> name == "id"@ || name == "type"@
                || name == "role"@ || name == "model"@ || name == "content"@ || name
                == "stop_reason"@ || name == "stop_sequence"@ || name == "usage"@,
{
    lemma_names();
}

/// A message ends where its first choice does: cut off by the limit, for a tool,
/// or since all is said.
pub proof fn law_reply_tells_its_end(reply: Tree, model: Seq<char>, id: Seq<char>)
    ensures
        anthropic_reply(reply, model, id).at("stop_reason"@) == match reply.at("choices"@) {
            Tree::Array(choices) => if choices.len() > 0 && choices[0].at("finish_reason"@)
                == Tree::Text("length"@) {
                Tree::Text("max_tokens"@)
            } else if choices.len() > 0 && choices[0].at("finish_reason"@) == Tree::Text(
                "tool_calls"@,
            ) {
                Tree::Text("tool_use"@)
            } else {
                Tree::Text("end_turn"@)
            },
            _ => Tree::Text("end_turn"@),
        },
{
    lemma_names();
    reveal_strlit("length");
    assert("length"@.len() != "tool_calls"@.len());
}

/// What a count of tokens comes to: itself, or none.
pub open spec fn counted(count: Tree) -> Tree {
    match count {
        Tree::Int(n) => if 0 <= n <= u64::MAX {
            count
        } else {
            Tree::Int(0)
        },
        _ => Tree::Int(0),
    }
}

/// A message costs what its reply did: the tokens of the prompt came in, those
/// of the completion went out, and none are of a cache.
pub proof fn law_reply_tells_its_cost(reply: Tree, model: Seq<char>, id: Seq<char>)
    ensures
        ({
            let usage = anthropic_reply(reply, model, id).at("usage"@);
            &&& usage.at("input_tokens"@) == counted(reply.at("usage"@).at("prompt_tokens"@))
            &&& usage.at("output_tokens"@) == counted(reply.at("usage"@).at("completion_tokens"@))
            &&& usage.at("cache_creation_input_tokens"@) == Tree::Int(0)
            &&& usage.at("cache_read_input_tokens"@) == Tree::Int(0)
        }),
{
    lemma_names();
}

/// The id of a message is `msg_` and 36 characters more.
pub proof fn law_message_ids(id: Seq<char>)
    requires
        is_message_id(id),
    ensures
        id.len() == 40,
        id.take(4) == "msg_"@,
        crate::ids::is_uuid(id.skip(4)),
{
    reveal_strlit("msg_");
    assert("msg_"@.len() == 4);
    let uuid = choose|uuid: Seq<char>| #[trigger] crate::ids::is_uuid(uuid) && id == "msg_"@ + uuid;
    assert(id.take(4) =~= "msg_"@);
    assert(id.skip(4) =~= uuid);
}

} // verus!
