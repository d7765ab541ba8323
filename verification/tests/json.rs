use rotation_copilot::json::{Json, Numeric, Object};

fn parse(text: &str) -> Json {
    Json::parse(text).unwrap()
}

#[test]
fn written_text_reads_back() {
    let text = r#"{"a":[1,-2,true,null,"x\"y"],"b":{"c":18446744073709551615}}"#;
    assert_eq!(parse(text).to_text(), text);
}

#[test]
fn members_come_out_by_name() {
    let value = parse(r#"{"b": 1, "a": 2}"#);
    assert_eq!(value.to_text(), r#"{"a":2,"b":1}"#);
}

#[test]
fn the_last_of_two_members_counts() {
    let value = parse(r#"{"a": 1, "a": 2}"#);
    assert_eq!(value.to_text(), r#"{"a":2}"#);
}

#[test]
fn decimal_numbers_are_carried() {
    let value = parse(r#"{"temperature": 0.7}"#);
    assert!(matches!(value.get("temperature"), Some(Json::Numeric(Numeric::Decimal(_)))));
    assert_eq!(value.copy().to_text(), r#"{"temperature":0.7}"#);
    assert_eq!(value.u64_at("temperature"), None);
    assert_eq!(value.i64_at("temperature"), None);
}

#[test]
fn broken_text_is_no_value() {
    assert!(Json::parse("{").is_none());
    assert!(Json::parse("").is_none());
    assert!(Json::parse("[DONE]").is_none());
}

#[test]
fn deep_text_is_no_value() {
    let deep = |depth: usize| format!("{}{}", "[".repeat(depth), "]".repeat(depth));
    assert_eq!(parse(&deep(127)).to_text(), deep(127));
    assert!(Json::parse(&deep(128)).is_none());
}

#[test]
fn outside_values_convert_both_ways() {
    let outside: serde_json::Value =
        serde_json::from_str(r#"{"x":[1,-1,0.5,"s",false,null],"y":{}}"#).unwrap();
    let value = Json::from_value(outside.clone());
    assert_eq!(value.to_value(), outside);
}

#[test]
fn members_are_read_by_kind() {
    let value = parse(r#"{"s":"t","b":true,"n":5,"m":-5,"big":9223372036854775808,"l":[1]}"#);
    assert_eq!(value.text_at("s"), Some("t"));
    assert_eq!(value.text_at("b"), None);
    assert_eq!(value.text_or("none", "d"), "d");
    assert_eq!(value.bool_at("b"), Some(true));
    assert_eq!(value.u64_at("n"), Some(5));
    assert_eq!(value.u64_at("m"), None);
    assert_eq!(value.i64_at("m"), Some(-5));
    assert_eq!(value.i64_at("big"), None);
    assert_eq!(value.u64_at("big"), Some(9223372036854775808));
    assert_eq!(value.array_at("l").unwrap().len(), 1);
    assert!(matches!(value.at("none"), Json::Null));
}

#[test]
fn setting_a_member_replaces_it() {
    let mut object = Object::new();
    object.insert("a", Json::unsigned(1));
    object.insert("b", Json::signed(-1));
    object.insert("a", Json::text("new"));
    assert_eq!(object.get("a").unwrap().as_text(), Some("new"));
    assert!(object.get("c").is_none());
    assert_eq!(Json::Object(object).to_text(), r#"{"a":"new","b":-1}"#);
}
