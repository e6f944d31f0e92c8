use visionary::frames::{extract_frames, frame, FRAME_CAP, GARBAGE_CAP};

#[test]
fn frame_extraction_handles_fragmented_adjacent_frames_and_leaves_trailing_bytes() {
    const OPEN: &str = "<TCP_MESSAGE>";
    const CLOSE: &str = "</TCP_MESSAGE>";
    let stream = format!("garbage{OPEN}{{\"id\":1}}{CLOSE}{OPEN}{{\"id\":2}}{CLOSE}trailing");
    let mut buf = String::new();
    let mut payloads = Vec::new();

    // Three-byte reads split opening and closing tags as well as JSON payloads, like a
    // socket read that happens to end in the middle of any protocol token.
    for chunk in stream.as_bytes().chunks(3) {
        buf.push_str(std::str::from_utf8(chunk).unwrap());
        payloads.extend(extract_frames(&mut buf));
    }

    assert_eq!(
        payloads,
        vec![r#"{"id":1}"#.to_string(), r#"{"id":2}"#.to_string()]
    );
    assert_eq!(buf, "trailing");
}

#[test]
fn frame_extraction_discards_oversized_garbage_but_preserves_latest_partial_frame() {
    const OPEN: &str = "<TCP_MESSAGE>";
    const CLOSE: &str = "</TCP_MESSAGE>";

    let mut garbage = "g".repeat((1 << 20) + 1);
    assert!(extract_frames(&mut garbage).is_empty());
    assert!(garbage.is_empty(), "unframed garbage must not grow forever");

    // Put a valid opening tag after more than FRAME_CAP bytes of junk. The guard should trim
    // only the junk and retain the in-flight frame so a later socket read can finish it.
    let mut partial = "g".repeat((16 << 20) + 1);
    partial.push_str(OPEN);
    partial.push_str("partial");
    assert!(extract_frames(&mut partial).is_empty());
    assert_eq!(partial, format!("{OPEN}partial"));

    partial.push_str(CLOSE);
    assert_eq!(extract_frames(&mut partial), vec!["partial".to_string()]);
    assert!(partial.is_empty());

    let mut runaway_frame = format!("{OPEN}{}", "x".repeat(16 << 20));
    assert!(extract_frames(&mut runaway_frame).is_empty());
    assert!(
        runaway_frame.is_empty(),
        "one unterminated frame must be bounded"
    );
}

#[test]
fn the_caps_are_one_and_sixteen_mebibytes() {
    assert_eq!(GARBAGE_CAP, 1 << 20);
    assert_eq!(FRAME_CAP, 16 << 20);
}

#[test]
fn a_framed_payload_comes_out_trimmed() {
    assert_eq!(frame("{}"), "<TCP_MESSAGE>{}</TCP_MESSAGE>");
    let mut buf = frame("  {\"a\":1}\n");
    assert_eq!(extract_frames(&mut buf), vec!["{\"a\":1}".to_string()]);
    assert_eq!(buf, "");
}

#[test]
fn an_empty_payload_is_dropped() {
    let mut buf = format!("{}{}", frame("   "), frame("x"));
    assert_eq!(extract_frames(&mut buf), vec!["x".to_string()]);
}

#[test]
fn a_stray_closing_tag_is_garbage() {
    let mut buf = format!("torn</TCP_MESSAGE>{}<TCP_MESS", frame("x"));
    assert_eq!(extract_frames(&mut buf), vec!["x".to_string()]);
    assert_eq!(buf, "<TCP_MESS");
}

#[test]
fn a_stream_may_be_cut_anywhere() {
    let stream = format!("a{}b{}c", frame("one"), frame("zwei \u{fc}ber"));
    let mut whole = stream.clone();
    let expected = extract_frames(&mut whole);
    let cuts: Vec<usize> = stream.char_indices().map(|(at, _)| at).collect();
    for cut in cuts {
        let mut buf = stream[..cut].to_string();
        let mut payloads = extract_frames(&mut buf);
        buf.push_str(&stream[cut..]);
        payloads.extend(extract_frames(&mut buf));
        assert_eq!(payloads, expected);
        assert_eq!(buf, whole);
    }
}

#[test]
fn lengths_count_bytes_and_not_characters() {
    // Two bytes each: half as many characters as bytes.
    let mut short = "\u{fc}".repeat(1 << 19);
    assert!(extract_frames(&mut short).is_empty());
    assert_eq!(short.len(), 1 << 20);
    short.push('g');
    assert!(extract_frames(&mut short).is_empty());
    assert!(short.is_empty());
}
