use chat_ai_lib::sse::{bytes_equal, frame_payload, frame_payloads, split_lines, starts_with};

fn lines(text: &str) -> Vec<Vec<u8>> {
    split_lines(text.as_bytes())
}

fn texts(items: &[&str]) -> Vec<Vec<u8>> {
    items.iter().map(|t| t.as_bytes().to_vec()).collect()
}

#[test]
fn test_split_lines_follows_line_feeds() {
    assert_eq!(lines(""), texts(&[]));
    assert_eq!(lines("\n"), texts(&[""]));
    assert_eq!(lines("abc"), texts(&["abc"]));
    assert_eq!(lines("abc\n"), texts(&["abc"]));
    assert_eq!(lines("abc\n\n"), texts(&["abc", ""]));
    assert_eq!(lines("a\nb\nc"), texts(&["a", "b", "c"]));
    assert_eq!(lines("\n\nx"), texts(&["", "", "x"]));
}

#[test]
fn test_split_lines_drops_carriage_return_before_line_feed_only() {
    assert_eq!(lines("a\r\nb\r\n"), texts(&["a", "b"]));
    assert_eq!(lines("a\r"), texts(&["a\r"]));
    assert_eq!(lines("a\rb\n"), texts(&["a\rb"]));
    assert_eq!(lines("a\r\r\n"), texts(&["a\r"]));
    assert_eq!(lines("\r\n"), texts(&[""]));
}

#[test]
fn test_split_lines_agrees_with_str_lines() {
    let samples = [
        "data: one\n\ndata: two\r\n\r\ndata: [DONE]\n",
        "no terminator at the end",
        "\r\n\r\n",
        "x\ny\r\nz\r",
        "",
    ];
    for sample in samples {
        let expected: Vec<Vec<u8>> = sample.lines().map(|l| l.as_bytes().to_vec()).collect();
        assert_eq!(split_lines(sample.as_bytes()), expected, "for {:?}", sample);
    }
}

#[test]
fn test_frame_payload_needs_the_prefix() {
    assert_eq!(frame_payload(b"data: {\"a\":1}"), Some(b"{\"a\":1}".to_vec()));
    assert_eq!(frame_payload(b"data: "), Some(b"".to_vec()));
    assert_eq!(frame_payload(b"data:"), None);
    assert_eq!(frame_payload(b"data:x"), None);
    assert_eq!(frame_payload(b" data: x"), None);
    assert_eq!(frame_payload(b"Data: x"), None);
    assert_eq!(frame_payload(b"event: ping"), None);
    assert_eq!(frame_payload(b""), None);
    assert_eq!(frame_payload(b": comment"), None);
}

#[test]
fn test_frame_payload_discards_the_sentinel() {
    assert_eq!(frame_payload(b"data: [DONE]"), None);
    assert_eq!(frame_payload(b"data: [DONE] "), Some(b"[DONE] ".to_vec()));
    assert_eq!(frame_payload(b"data:  [DONE]"), Some(b" [DONE]".to_vec()));
    assert_eq!(frame_payload(b"data: [done]"), Some(b"[done]".to_vec()));
}

#[test]
fn test_frame_payloads_keep_the_order() {
    let all = lines("data: 1\nignored\ndata: [DONE]\n\ndata: 2\ndata: 3");
    assert_eq!(frame_payloads(&all), texts(&["1", "2", "3"]));
    assert_eq!(frame_payloads(&Vec::new()), texts(&[]));
}

#[test]
fn test_byte_string_helpers() {
    assert!(starts_with(b"data: x", b"data: "));
    assert!(starts_with(b"abc", b""));
    assert!(starts_with(b"abc", b"abc"));
    assert!(!starts_with(b"ab", b"abc"));
    assert!(!starts_with(b"abd", b"abc"));
    assert!(bytes_equal(b"", b""));
    assert!(bytes_equal(b"abc", b"abc"));
    assert!(!bytes_equal(b"abc", b"abd"));
    assert!(!bytes_equal(b"abc", b"ab"));
    assert!(!bytes_equal(b"ab", b"abc"));
}
