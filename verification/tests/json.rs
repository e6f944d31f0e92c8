use visionary::json::{open_frame, write_strings, Form, Json};

#[test]
fn a_frame_is_opened_one_level_at_a_time() {
    let payload = r#"{"header":"Notify","body":"{\"Notify\":{\"id\":7,\"name\":\"x\",\"on\":true,\"low\":-3}}"}"#;
    let frame = open_frame(payload).unwrap();
    assert_eq!(frame.header, "Notify");
    let section = frame.section.unwrap();
    assert_eq!(section.as_u64("id"), Some(7));
    assert_eq!(section.as_i64("low"), Some(-3));
    assert_eq!(section.as_u64("low"), None);
    assert_eq!(section.as_str("name").as_deref(), Some("x"));
    assert_eq!(section.as_bool("on"), Some(true));
    assert_eq!(section.as_bool("name"), None);
    assert_eq!(section.as_str("missing"), None);
    assert!(matches!(section.value("id"), Some(Json::Number { unsigned: Some(7), .. })));
}

#[test]
fn what_is_no_frame_is_not_opened() {
    for payload in ["", "nonsense", "[]", "{}", "{\"header\":1}", "{\"header\":\"x\"", "null"] {
        assert!(open_frame(payload).is_none(), "{payload}");
    }
    let bare = open_frame("{\"header\":\"Pong\"}").unwrap();
    assert_eq!(bare.header, "Pong");
    assert!(bare.section.is_none());
}

#[test]
fn strings_are_quoted() {
    assert_eq!(write_strings(&Vec::new()), "[]");
    let items = vec![
        "plain".to_string(),
        "\"\\/".to_string(),
        "\u{8}\t\n\u{c}\r\u{1f}\u{7f}\u{fc}".to_string(),
        (0u8..=127).map(char::from).collect::<String>(),
    ];
    let text = write_strings(&items);
    assert_eq!(text, serde_json::to_string(&items).unwrap());
    let back: Vec<String> = serde_json::from_str(&text).unwrap();
    assert_eq!(back, items);
}

#[test]
fn members_of_an_object_are_found_by_name() {
    let object = Json::Object(vec![
        ("a".to_string(), "1".to_string()),
        ("b".to_string(), "\"x\"".to_string()),
    ]);
    assert_eq!(object.get("b").as_deref(), Some("\"x\""));
    assert_eq!(object.get("c"), None);
    assert_eq!(Json::Null.get("a"), None);
}

#[test]
fn nested_values_keep_their_spelling() {
    let payload = r#"{"header":"Capture","body":{"Capture":{ "frame" : 2.00000059604644775390625 , "list":[1, 2.50 ],"frame2":1, "frame2":3}}}"#;
    let section = open_frame(payload).unwrap().section.unwrap();
    let spelled = |name: &str| section.field(name).unwrap().text.clone();
    assert_eq!(spelled("frame"), "2.00000059604644775390625");
    assert_eq!(spelled("list"), "[1, 2.50 ]");
    // The last member of a name counts.
    assert_eq!(section.as_u64("frame2"), Some(3));
    assert!(matches!(
        section.value("list"),
        Some(Json::List(items)) if items == &vec!["1".to_string(), "2.50".to_string()]
    ));
}

#[test]
fn a_form_is_embedded_or_nested() {
    let payload = r#"{"header":"N","body":{"N":{"a":"{\"x\":1}","b":{"x": 1}}}}"#;
    let section = open_frame(payload).unwrap().section.unwrap();
    assert!(matches!(section.form("a"), Some(Form::Embedded(t)) if t == "{\"x\":1}"));
    assert!(matches!(section.form("b"), Some(Form::Nested(t)) if t == "{\"x\": 1}"));
    assert!(section.form("c").is_none());
}
