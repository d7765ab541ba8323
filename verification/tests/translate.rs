use rotation_copilot::json::Json;
use rotation_copilot::routes::translate::{
    asks_for_stream, block_from_call, call_from_block, new_message_id, part_from_block,
    reply_from_block, stop_reason_from, translate_anthropic_to_openai,
    translate_openai_to_anthropic, translate_openai_to_anthropic_with, translate_tool,
};

fn parse(text: &str) -> Json {
    Json::parse(text).unwrap()
}

fn translated(text: &str) -> String {
    translate_anthropic_to_openai(&parse(text)).to_text()
}

fn messages(text: &str) -> String {
    translate_anthropic_to_openai(&parse(text)).at("messages").to_text()
}

#[test]
fn plain_text_request() {
    assert_eq!(
        translated(
            r#"{"model":"sonnet-3.5","max_tokens":1024,"messages":[{"role":"user","content":"Hello!"}]}"#
        ),
        r#"{"max_tokens":1024,"messages":[{"content":"Hello!","role":"user"}],"model":"sonnet-3.5","stream":false}"#
    );
}

#[test]
fn an_empty_request_has_defaults() {
    assert_eq!(
        translated("{}"),
        r#"{"max_tokens":4096,"messages":[],"model":"gpt-4o","stream":false}"#
    );
    assert_eq!(
        translated("[1]"),
        r#"{"max_tokens":4096,"messages":[],"model":"gpt-4o","stream":false}"#
    );
}

#[test]
fn sampling_options_and_stream_are_sent_on() {
    assert_eq!(
        translated(r#"{"temperature":0.2,"top_p":null,"stream":true,"max_tokens":-1}"#),
        r#"{"max_tokens":4096,"messages":[],"model":"gpt-4o","stream":true,"stream_options":{"include_usage":true},"temperature":0.2,"top_p":null}"#
    );
    assert!(asks_for_stream(&parse(r#"{"stream":true}"#)));
    assert!(!asks_for_stream(&parse(r#"{"stream":"true"}"#)));
}

#[test]
fn the_system_prompt_becomes_a_message() {
    assert_eq!(messages(r#"{"system":"Be brief."}"#), r#"[{"content":"Be brief.","role":"system"}]"#);
    assert_eq!(
        messages(r#"{"system":[{"type":"text","text":"a"},{"x":1},{"text":"b"}]}"#),
        r#"[{"content":"a\nb","role":"system"}]"#
    );
    assert_eq!(messages(r#"{"system":""}"#), "[]");
    assert_eq!(messages(r#"{"system":5}"#), "[]");
    assert_eq!(messages(r#"{"system":[]}"#), "[]");
}

#[test]
fn roles_are_user_or_assistant() {
    assert_eq!(
        messages(
            r#"{"messages":[{"role":"assistant","content":"a"},{"role":"system","content":"b"},{"content":"c"},{"role":"user"}]}"#
        ),
        r#"[{"content":"a","role":"assistant"},{"content":"b","role":"user"},{"content":"c","role":"user"}]"#
    );
}

#[test]
fn text_blocks_become_text_or_parts() {
    assert_eq!(
        messages(r#"{"messages":[{"role":"user","content":[{"type":"text","text":"one"}]}]}"#),
        r#"[{"content":"one","role":"user"}]"#
    );
    assert_eq!(
        messages(
            r#"{"messages":[{"role":"user","content":[{"text":"one"},{"type":"thinking","thinking":"two"},{"type":"thinking"},{"type":"other"},{"type":"text"}]}]}"#
        ),
        r#"[{"content":[{"text":"one","type":"text"},{"text":"two","type":"text"},{"text":"","type":"text"}],"role":"user"}]"#
    );
    assert_eq!(messages(r#"{"messages":[{"role":"user","content":[]}]}"#), "[]");
}

#[test]
fn images_become_data_urls() {
    assert_eq!(
        messages(
            r#"{"messages":[{"role":"user","content":[{"type":"image","source":{"media_type":"image/jpeg","data":"QUJD"}}]}]}"#
        ),
        r#"[{"content":[{"image_url":{"url":"data:image/jpeg;base64,QUJD"},"type":"image_url"}],"role":"user"}]"#
    );
    assert_eq!(
        part_from_block(&parse(r#"{"type":"image","source":{}}"#)).unwrap().to_text(),
        r#"{"image_url":{"url":"data:image/png;base64,"},"type":"image_url"}"#
    );
    assert!(part_from_block(&parse(r#"{"type":"image"}"#)).is_none());
}

#[test]
fn tool_calls_and_results_become_messages() {
    assert_eq!(
        messages(
            r#"{"messages":[{"role":"assistant","content":[{"type":"text","text":"Let me see."},{"type":"tool_use","id":"t1","name":"look","input":{"b":1,"a":2}}]},{"role":"user","content":[{"type":"text","text":"and?"},{"type":"tool_result","tool_use_id":"t1","content":[{"type":"text","text":"x"},{"type":"text","text":"y"}]}]}]}"#
        ),
        r#"[{"content":"Let me see.","role":"assistant","tool_calls":[{"function":{"arguments":"{\"a\":2,\"b\":1}","name":"look"},"id":"t1","type":"function"}]},{"content":"x\ny","role":"tool","tool_call_id":"t1"},{"content":"and?","role":"user"}]"#
    );
}

#[test]
fn a_call_beside_an_image_keeps_the_texts_only() {
    assert_eq!(
        messages(
            r#"{"messages":[{"role":"user","content":[{"type":"image","source":{}},{"type":"tool_use"},{"type":"text","text":""}]}]}"#
        ),
        r#"[{"role":"assistant","tool_calls":[{"function":{"arguments":"{}","name":null},"id":null,"type":"function"}]}]"#
    );
}

#[test]
fn results_are_flattened() {
    let content = |text: &str| reply_from_block(&parse(text)).unwrap().text_at("content").unwrap().to_string();
    assert_eq!(content(r#"{"type":"tool_result","content":"plain"}"#), "plain");
    assert_eq!(content(r#"{"type":"tool_result","content":{"a":1}}"#), "");
    assert_eq!(content(r#"{"type":"tool_result"}"#), "");
    assert!(reply_from_block(&parse(r#"{"type":"text"}"#)).is_none());
}

#[test]
fn tools_are_declared_as_functions() {
    assert_eq!(
        translate_tool(&parse(
            r#"{"name":"look","description":"Looks.","input_schema":{"type":"object"}}"#
        ))
        .to_text(),
        r#"{"function":{"description":"Looks.","name":"look","parameters":{"type":"object"}},"type":"function"}"#
    );
    assert_eq!(
        translated(r#"{"tools":[{"name":"n"}]}"#),
        r#"{"max_tokens":4096,"messages":[],"model":"gpt-4o","stream":false,"tools":[{"function":{"description":"","name":"n","parameters":{}},"type":"function"}]}"#
    );
    assert!(!translated(r#"{"tools":{}}"#).contains("tools"));
}

#[test]
fn a_tool_call_comes_back_as_it_went() {
    let block = parse(
        r#"{"type":"tool_use","id":"t1","name":"look","input":{"path":"/x","deep":[{"n":-3}],"q":"\u0000\"é"}}"#,
    );
    let call = call_from_block(&block).unwrap();
    assert_eq!(block_from_call(&call).to_text(), block.to_text());
    assert!(call_from_block(&parse(r#"{"type":"text"}"#)).is_none());
}

#[test]
fn a_reply_is_translated() {
    let reply = parse(
        r#"{"choices":[{"message":{"content":"Hi","tool_calls":[{"id":"t","function":{"name":"f","arguments":"{\"a\":1}"}},{"function":{"arguments":"{broken"}},{}]},"finish_reason":"tool_calls"},{"message":{"content":""}}],"usage":{"prompt_tokens":3,"completion_tokens":4}}"#,
    );
    assert_eq!(
        translate_openai_to_anthropic_with(&reply, "m", "msg_1").to_text(),
        r#"{"content":[{"text":"Hi","type":"text"},{"id":"t","input":{"a":1},"name":"f","type":"tool_use"},{"id":null,"input":{},"name":null,"type":"tool_use"},{"id":null,"input":{},"name":null,"type":"tool_use"}],"id":"msg_1","model":"m","role":"assistant","stop_reason":"tool_use","stop_sequence":null,"type":"message","usage":{"cache_creation_input_tokens":0,"cache_read_input_tokens":0,"input_tokens":3,"output_tokens":4}}"#
    );
}

#[test]
fn an_empty_reply_is_translated() {
    assert_eq!(
        translate_openai_to_anthropic_with(&parse("{}"), "m", "msg_1").to_text(),
        r#"{"content":[],"id":"msg_1","model":"m","role":"assistant","stop_reason":"end_turn","stop_sequence":null,"type":"message","usage":{"cache_creation_input_tokens":0,"cache_read_input_tokens":0,"input_tokens":0,"output_tokens":0}}"#
    );
    let made = translate_openai_to_anthropic(&parse("{}"), "m");
    assert!(made.text_at("id").unwrap().starts_with("msg_"));
    assert_eq!(made.text_at("id").unwrap().len(), 40);
    assert_ne!(new_message_id(), new_message_id());
}

#[test]
fn finish_reasons_are_renamed() {
    assert_eq!(stop_reason_from(Some("stop")), "end_turn");
    assert_eq!(stop_reason_from(Some("length")), "max_tokens");
    assert_eq!(stop_reason_from(Some("tool_calls")), "tool_use");
    assert_eq!(stop_reason_from(Some("content_filter")), "end_turn");
    assert_eq!(stop_reason_from(None), "end_turn");
}
