use rotation_copilot::json::Json;
use rotation_copilot::routes::stream::{
    add_call_events, add_choice_events, add_chunk_events, translate_stream_to_anthropic, Blocks,
    StreamEvent, StreamTranslator,
};

const STREAM: &str = "data: {\"choices\":[{\"delta\":{\"role\":\"assistant\"}}]}\n\n\
: comment\r\ndata: {\"choices\":[{\"delta\":{\"content\":\"Grü\"}}]}\r\n\n\
data: not json\n\n\
data: {\"choices\":[{\"delta\":{\"content\":\"ße\"},\"finish_reason\":\"stop\"}]}\n\n\
data: {\"choices\":[],\"usage\":{\"total_tokens\":9,\"completion_tokens\":4}}\n\n\
data: [DONE] \ndata: {\"choices\":[{\"delta\":{\"content\":\"lost\"}}]}\n\n\
data: {\"choices\":[{\"delta\":{\"content\":\"kept back\"}}]}\n";

fn translator() -> StreamTranslator {
    StreamTranslator::with_id("m", "msg_1".to_string())
}

fn frames(events: &[StreamEvent]) -> String {
    events.iter().map(|e| e.to_frame()).collect()
}

/// All that comes out for a whole stream.
fn told(text: &str) -> Vec<StreamEvent> {
    let mut stream = translator();
    let mut events = vec![stream.start()];
    events.extend(stream.push_text(text));
    events.extend(stream.finish());
    events
}

fn line(choice: &str) -> String {
    format!("data: {{\"choices\":[{}]}}\n\n", choice)
}

fn places(events: &[StreamEvent], name: &str, index: i64) -> Vec<usize> {
    (0..events.len())
        .filter(|i| events[*i].name == name && events[*i].data.i64_at("index") == Some(index))
        .collect()
}

fn names(events: &[StreamEvent]) -> Vec<&str> {
    events.iter().map(|e| e.name.as_str()).collect()
}

#[test]
fn a_stream_opens_and_closes() {
    let made = translate_stream_to_anthropic("m");
    assert!(made.id.starts_with("msg_"));
    assert_eq!(
        translator().start().to_frame(),
        "event: message_start\ndata: {\"message\":{\"content\":[],\"id\":\"msg_1\",\"model\":\"m\",\"role\":\"assistant\",\"stop_reason\":null,\"type\":\"message\",\"usage\":{\"input_tokens\":0,\"output_tokens\":0}},\"type\":\"message_start\"}\n\n"
    );
    assert_eq!(
        translator().finish().unwrap().to_frame(),
        "event: message_stop\ndata: {\"type\":\"message_stop\"}\n\n"
    );
    assert_eq!(
        translator().finish().unwrap().frame_with("{}"),
        "event: message_stop\ndata: {}\n\n"
    );
}

#[test]
fn text_comes_out_as_deltas_of_one_block() {
    let mut stream = translator();
    let events = stream.push_chunk(STREAM.as_bytes());
    assert_eq!(
        frames(&events),
        "event: content_block_start\ndata: {\"content_block\":{\"text\":\"\",\"type\":\"text\"},\"index\":0,\"type\":\"content_block_start\"}\n\n\
event: content_block_delta\ndata: {\"delta\":{\"text\":\"Grü\",\"type\":\"text_delta\"},\"index\":0,\"type\":\"content_block_delta\"}\n\n\
event: content_block_delta\ndata: {\"delta\":{\"text\":\"ße\",\"type\":\"text_delta\"},\"index\":0,\"type\":\"content_block_delta\"}\n\n\
event: content_block_stop\ndata: {\"index\":0,\"type\":\"content_block_stop\"}\n\n\
event: message_delta\ndata: {\"delta\":{\"stop_reason\":\"end_turn\"},\"type\":\"message_delta\",\"usage\":{\"output_tokens\":0}}\n\n\
event: message_delta\ndata: {\"delta\":{},\"type\":\"message_delta\",\"usage\":{\"output_tokens\":4}}\n\n\
event: message_delta\ndata: {\"delta\":{\"stop_reason\":\"end_turn\"},\"type\":\"message_delta\",\"usage\":{\"output_tokens\":0}}\n\n\
event: message_stop\ndata: {\"type\":\"message_stop\"}\n\n"
    );
    assert!(stream.blocks.text && stream.blocks.open.is_empty());
    assert!(stream.done && stream.finish().is_none());
    let rest: String = stream.buffer.iter().collect();
    assert!(rest.starts_with("data: ") && rest.contains("kept back"));
}

#[test]
fn pieces_do_not_matter() {
    let whole = frames(&translator().push_text(STREAM));
    let chars: Vec<char> = STREAM.chars().collect();
    for cut in 0..=chars.len() {
        let first: String = chars[..cut].iter().collect();
        let second: String = chars[cut..].iter().collect();
        let mut stream = translator();
        let mut events = stream.push_text(&first);
        events.extend(stream.push_text(&second));
        assert_eq!(frames(&events), whole, "cut at {}", cut);
    }
    let mut stream = translator();
    let mut single = String::new();
    for c in &chars {
        single.push_str(&frames(&stream.push_text(&c.to_string())));
    }
    assert_eq!(single, whole);
}

#[test]
fn chunks_of_whole_characters_do_not_matter() {
    let whole = frames(&translator().push_chunk(STREAM.as_bytes()));
    let mut stream = translator();
    let mut pieces = String::new();
    for c in STREAM.chars() {
        pieces.push_str(&frames(&stream.push_chunk(c.to_string().as_bytes())));
    }
    assert_eq!(pieces, whole);
}

#[test]
fn a_cut_character_is_replaced() {
    let text = "data: {\"choices\":[{\"delta\":{\"content\":\"é\"}}]}\n\n";
    let bytes = text.as_bytes();
    let cut = text.find('é').unwrap() + 1;
    let mut stream = translator();
    let mut events = stream.push_chunk(&bytes[..cut]);
    events.extend(stream.push_chunk(&bytes[cut..]));
    let delta = events[1].data.at("delta");
    assert_eq!(delta.text_at("text"), Some("\u{fffd}\u{fffd}"));
}

#[test]
fn the_text_block_opens_once() {
    let text = "data: {\"choices\":[{\"delta\":{\"content\":\"a\"}}]}\n\n".repeat(5);
    let events = translator().push_text(&text);
    let opened = names(&events).iter().filter(|n| **n == "content_block_start").count();
    assert_eq!(opened, 1);
    assert_eq!(events.len(), 6);
}

#[test]
fn an_empty_text_opens_the_block_too() {
    let events = translator().push_text("data: {\"choices\":[{\"delta\":{\"content\":\"\"}}]}\n\n");
    assert_eq!(names(&events), ["content_block_start", "content_block_delta"]);
}

#[test]
fn a_finish_without_text_closes_no_block() {
    let events =
        translator().push_text("data: {\"choices\":[{\"delta\":{},\"finish_reason\":\"length\"}]}\n\n");
    assert_eq!(names(&events), ["message_delta"]);
    assert_eq!(events[0].data.at("delta").text_at("stop_reason"), Some("max_tokens"));
}

#[test]
fn tool_calls_stand_behind_the_text() {
    let call = Json::parse(
        r#"{"index":1,"id":"t","function":{"name":"f","arguments":"{\"a\":"}}"#,
    )
    .unwrap();
    let mut events = Vec::new();
    let mut blocks = Blocks::new();
    add_call_events(&mut events, &mut blocks, &call);
    assert_eq!(blocks.open, [2]);
    add_call_events(&mut events, &mut blocks, &Json::Null);
    assert_eq!(blocks.open, [2]);
    assert_eq!(
        frames(&events),
        "event: content_block_start\ndata: {\"content_block\":{\"id\":\"t\",\"input\":{},\"name\":\"f\",\"type\":\"tool_use\"},\"index\":2,\"type\":\"content_block_start\"}\n\n\
event: content_block_delta\ndata: {\"delta\":{\"partial_json\":\"{\\\"a\\\":\",\"type\":\"input_json_delta\"},\"index\":2,\"type\":\"content_block_delta\"}\n\n"
    );
}

#[test]
fn pieces_of_tool_calls() {
    let events_of = |text: &str| {
        let mut events = Vec::new();
        add_call_events(&mut events, &mut Blocks::new(), &Json::parse(text).unwrap());
        events
    };
    assert!(events_of(r#"{"index":0}"#).is_empty());
    assert!(events_of(r#"{"function":{"arguments":""}}"#).is_empty());
    let named = events_of(r#"{"function":{"name":null}}"#);
    assert_eq!(named.len(), 1);
    assert_eq!(named[0].data.at("content_block").text_at("id"), Some(""));
    assert_eq!(named[0].data.i64_at("index"), Some(1));
    let wrapped = events_of(r#"{"index":2147483647,"function":{"name":"f"}}"#);
    assert_eq!(wrapped[0].data.i64_at("index"), Some(-2147483648));
    let cut = events_of(r#"{"index":4294967297,"function":{"name":"f"}}"#);
    assert_eq!(cut[0].data.i64_at("index"), Some(2));
}

#[test]
fn choices_of_a_chunk_follow_each_other() {
    let chunk = Json::parse(
        r#"{"choices":[{"delta":{"content":"a"}},{"delta":{"tool_calls":[{"function":{"name":"f"}}]},"finish_reason":"tool_calls"}],"usage":{"total_tokens":0}}"#,
    )
    .unwrap();
    let mut events = Vec::new();
    let mut blocks = Blocks::new();
    add_chunk_events(&mut events, &mut blocks, &chunk);
    assert!(blocks.text && blocks.open.is_empty());
    assert_eq!(
        names(&events),
        [
            "content_block_start",
            "content_block_delta",
            "content_block_start",
            "content_block_stop",
            "content_block_stop",
            "message_delta",
        ]
    );
    assert_eq!(events[3].data.i64_at("index"), Some(0));
    assert_eq!(events[4].data.i64_at("index"), Some(1));
}

#[test]
fn a_choice_opens_blocks_and_closes_them() {
    let mut blocks = Blocks::new();
    let mut events = Vec::new();
    let mut take = |text: &str| {
        add_choice_events(&mut events, &mut blocks, &Json::parse(text).unwrap());
        blocks.open.clone()
    };
    let named = r#"{"delta":{"tool_calls":[{"index":1,"function":{"name":"f"}}]}}"#;
    assert_eq!(take(named), [2]);
    assert_eq!(take(r#"{"delta":{"content":"a"}}"#), [2, 0]);
    assert_eq!(take(named), [2, 0]);
    let piece = r#"{"delta":{"tool_calls":[{"index":5,"function":{"arguments":"{}"}}]}}"#;
    assert_eq!(take(piece), [2, 0]);
    assert_eq!(take(r#"{"delta":{},"finish_reason":null}"#), [2, 0]);
    assert!(take(r#"{"delta":{},"finish_reason":"stop"}"#).is_empty());
}

#[test]
fn a_stream_is_one_message() {
    let said = line(r#"{"delta":{"content":"a"},"finish_reason":"stop"}"#);
    for end in ["", "data: [DONE]\n\n", "data: [DONE]\n\n: ping\n\n", "data: [DONE]"] {
        let events = told(&format!("{}{}", said, end));
        let names = names(&events);
        assert_eq!(names[0], "message_start");
        assert_eq!(names[names.len() - 1], "message_stop");
        assert_eq!(names.iter().filter(|n| **n == "message_start").count(), 1, "{:?}", end);
        assert_eq!(names.iter().filter(|n| **n == "message_stop").count(), 1, "{:?}", end);
    }
}

#[test]
fn every_block_is_closed() {
    let text = [
        line(r#"{"delta":{"content":"a"}}"#),
        line(r#"{"delta":{"tool_calls":[{"index":0,"id":"t","function":{"name":"f","arguments":"{"}}]}}"#),
        line(r#"{"delta":{"tool_calls":[{"index":1,"id":"u","function":{"name":"g","arguments":"{"}}]}}"#),
        line(r#"{"delta":{"tool_calls":[{"index":0,"function":{"arguments":"}"}}]}}"#),
        line(r#"{"delta":{"tool_calls":[{"index":1,"function":{"arguments":"}"}}]}}"#),
        line(r#"{"delta":{},"finish_reason":"tool_calls"}"#),
        "data: [DONE]\n\n".to_string(),
    ]
    .concat();
    let events = told(&text);
    for index in [0, 1, 2] {
        let stops = places(&events, "content_block_stop", index);
        assert_eq!(stops.len(), 1);
        assert_eq!(places(&events, "content_block_start", index).len(), 1);
        let deltas = places(&events, "content_block_delta", index);
        assert!(deltas.iter().all(|delta| *delta < stops[0]));
        assert!(stops[0] < events.len() - 1);
    }
    assert!(places(&events, "content_block_stop", 3).is_empty());
    assert_eq!(events[events.len() - 3].data.at("delta").text_at("stop_reason"), Some("tool_use"));
}

#[test]
fn a_block_opened_behind_a_finish_reason_is_closed_by_the_next() {
    let finish = line(r#"{"delta":{},"finish_reason":"stop"}"#);
    let call = line(r#"{"delta":{"tool_calls":[{"index":0,"function":{"name":"f"}}]}}"#);
    let said = line(r#"{"delta":{"content":"a"}}"#);
    let events = told(&[finish.as_str(), &call, &finish, &said, &finish, &finish].concat());
    let stops: Vec<usize> = [1, 0]
        .iter()
        .flat_map(|index| places(&events, "content_block_stop", *index))
        .collect();
    assert_eq!(stops.len(), 2);
    assert!(stops[0] < places(&events, "content_block_start", 0)[0]);
    assert!(places(&events, "content_block_delta", 0)[0] < stops[1]);
    assert!(stops[1] < events.len() - 1);
}

#[test]
fn a_whole_stream_is_told() {
    let text = [
        line(r#"{"delta":{"content":"a","tool_calls":[{"index":0,"function":{"name":"f","arguments":"{\"x"}}]}}"#),
        "data: no json\n\n".to_string(),
        line(r#"{"delta":{"content":"","tool_calls":[{"index":1,"function":{"name":"g","arguments":"[1"}}]}}"#),
        line(r#"{"delta":{"tool_calls":[{"index":0,"function":{"arguments":"\":1}"}},{"index":1,"function":{"arguments":""}}]}}"#),
        line(r#"{"delta":{"content":"b","tool_calls":[{"index":1,"function":{"arguments":",2]"}}]}}"#),
    ]
    .concat();
    let events = told(&text);
    let joined = |name: &str, index: i64| -> String {
        places(&events, "content_block_delta", index)
            .iter()
            .filter_map(|i| events[*i].data.at("delta").text_at(name).map(str::to_owned))
            .collect()
    };
    assert_eq!(joined("text", 0), "ab");
    assert_eq!(joined("text", 1), "");
    assert_eq!(joined("partial_json", 0), "");
    assert_eq!(joined("partial_json", 1), "{\"x\":1}");
    assert_eq!(joined("partial_json", 2), "[1,2]");
}

#[test]
fn what_a_chunk_says_is_told() {
    let chunk = Json::parse(
        r#"{"choices":[{"delta":{"content":"a","tool_calls":[{"function":{"arguments":"{"}},{"function":{"arguments":"}"}}]}},{"delta":{"content":""}},{"delta":{}},{"delta":{"content":"b"}}]}"#,
    )
    .unwrap();
    let mut events = Vec::new();
    let mut blocks = Blocks::new();
    add_chunk_events(&mut events, &mut blocks, &chunk);
    let told = |name: &str| -> Vec<String> {
        events
            .iter()
            .filter_map(|e| e.data.at("delta").text_at(name).map(str::to_owned))
            .collect()
    };
    assert_eq!(told("text"), ["a", "", "b"]);
    assert_eq!(told("partial_json"), ["{", "}"]);
}
