use cdt_api::chunk::{ContentBlock, ImageSource, MessageContent};
use cdt_api::messages::{
    extract_content_text, find_image_block_in_messages, parse_block_id, parse_usize, subagent_header, MessageType,
    ParsedMessage,
};

fn image(media: &str, data: &str) -> ContentBlock {
    ContentBlock::Image {
        source: ImageSource {
            kind: "base64".to_string(),
            media_type: media.to_string(),
            data: data.to_string(),
            data_omitted: false,
        },
    }
}

fn text(t: &str) -> ContentBlock {
    ContentBlock::Text { text: t.to_string() }
}

fn message(uuid: &str, content: MessageContent) -> ParsedMessage {
    ParsedMessage {
        uuid: uuid.to_string(),
        parent_uuid: None,
        agent_id: None,
        message_type: MessageType::Assistant,
        content,
        timestamp_ms: 0,
    }
}

fn full(
    kind: MessageType,
    parent: Option<&str>,
    agent: Option<&str>,
    content: MessageContent,
    ts: i64,
) -> ParsedMessage {
    ParsedMessage {
        uuid: format!("m{ts}"),
        parent_uuid: parent.map(|s| s.to_string()),
        agent_id: agent.map(|s| s.to_string()),
        message_type: kind,
        content,
        timestamp_ms: ts,
    }
}

#[test]
fn parse_usize_accepts_digits_and_plus() {
    assert_eq!(parse_usize("0"), Some(0));
    assert_eq!(parse_usize("42"), Some(42));
    assert_eq!(parse_usize("+7"), Some(7));
    assert_eq!(parse_usize("007"), Some(7));
}

#[test]
fn parse_usize_rejects_malformed_input() {
    assert_eq!(parse_usize(""), None);
    assert_eq!(parse_usize("+"), None);
    assert_eq!(parse_usize("-1"), None);
    assert_eq!(parse_usize("1a"), None);
    assert_eq!(parse_usize(" 1"), None);
    assert_eq!(parse_usize("99999999999999999999999"), None);
}

#[test]
fn parse_usize_matches_std_parse() {
    for s in ["12", "+0", "18446744073709551615", "18446744073709551616", "++1", "1+", "x"] {
        assert_eq!(parse_usize(s), s.parse::<usize>().ok(), "input {s}");
    }
}

#[test]
fn parse_block_id_splits_at_last_colon() {
    assert_eq!(parse_block_id("abc:3"), Some(("abc".to_string(), 3)));
    assert_eq!(parse_block_id("ai:r1:0"), Some(("ai:r1".to_string(), 0)));
    assert_eq!(parse_block_id("a:b:+7"), Some(("a:b".to_string(), 7)));
    assert_eq!(parse_block_id(":5"), Some((String::new(), 5)));
}

#[test]
fn parse_block_id_rejects_invalid_ids() {
    assert_eq!(parse_block_id("no-colon-here"), None);
    assert_eq!(parse_block_id("x:"), None);
    assert_eq!(parse_block_id("x:1:y"), None);
    assert_eq!(parse_block_id("x:99999999999999999999999"), None);
}

#[test]
fn find_image_block_returns_data_and_media_type() {
    let messages = vec![
        message("m1", MessageContent::Text("hi".to_string())),
        message("m2", MessageContent::Blocks(vec![text("look"), image("image/png", "AAAAdata")])),
    ];
    assert_eq!(
        find_image_block_in_messages(&messages, "m2", 1),
        Some(("AAAAdata".to_string(), "image/png".to_string()))
    );
}

#[test]
fn find_image_block_misses() {
    let messages = vec![
        message("m1", MessageContent::Text("hi".to_string())),
        message("m2", MessageContent::Blocks(vec![text("look"), image("image/png", "AAAAdata")])),
    ];
    assert_eq!(find_image_block_in_messages(&messages, "m2", 0), None);
    assert_eq!(find_image_block_in_messages(&messages, "m2", 5), None);
    assert_eq!(find_image_block_in_messages(&messages, "m1", 0), None);
    assert_eq!(find_image_block_in_messages(&messages, "zz", 1), None);
}

#[test]
fn find_image_block_uses_first_message_with_the_id() {
    let messages = vec![
        message("dup", MessageContent::Blocks(vec![image("image/gif", "first")])),
        message("dup", MessageContent::Blocks(vec![image("image/png", "second")])),
    ];
    assert_eq!(
        find_image_block_in_messages(&messages, "dup", 0),
        Some(("first".to_string(), "image/gif".to_string()))
    );
}

#[test]
fn extract_content_text_picks_plain_text_or_first_text_block() {
    assert_eq!(extract_content_text(&MessageContent::Text("plain".to_string())), Some("plain"));
    let blocks = MessageContent::Blocks(vec![image("image/png", "d"), text("first"), text("second")]);
    assert_eq!(extract_content_text(&blocks), Some("first"));
    let none = MessageContent::Blocks(vec![image("image/png", "d")]);
    assert_eq!(extract_content_text(&none), None);
    assert_eq!(extract_content_text(&MessageContent::Blocks(vec![])), None);
}

#[test]
fn subagent_header_reads_first_messages() {
    let msgs = vec![
        full(MessageType::User, Some("u-root"), None, MessageContent::Text("Investigate the bug".to_string()), 1000),
        full(MessageType::Assistant, Some("x"), Some("abc123"), MessageContent::Text("ok".to_string()), 2000),
        full(MessageType::User, None, None, MessageContent::Text("later".to_string()), 3000),
    ];
    let h = subagent_header("agent-file", &msgs).expect("header");
    assert_eq!(h.session_id, "abc123");
    assert_eq!(h.parent_session_id.as_deref(), Some("u-root"));
    assert_eq!(h.description_hint.as_deref(), Some("Investigate the bug"));
    assert_eq!(h.spawn_ts_ms, 1000);
    assert_eq!(h.end_ts_ms, Some(3000));
}

#[test]
fn subagent_header_falls_back_to_file_stem() {
    let msgs = vec![full(MessageType::Assistant, None, None, MessageContent::Text("done".to_string()), 5)];
    let h = subagent_header("agent-deadbeef", &msgs).expect("header");
    assert_eq!(h.session_id, "deadbeef");
    assert_eq!(h.parent_session_id, None);
    assert_eq!(h.description_hint, None);
    assert_eq!(h.end_ts_ms, None);
    let h2 = subagent_header("plain", &msgs).expect("header");
    assert_eq!(h2.session_id, "plain");
}

#[test]
fn subagent_header_skips_warmup_and_empty_files() {
    let warm = vec![
        full(MessageType::Assistant, None, None, MessageContent::Text("x".to_string()), 1),
        full(MessageType::User, None, None, MessageContent::Blocks(vec![text("Warmup")]), 2),
    ];
    assert!(subagent_header("agent-a", &warm).is_none());
    assert!(subagent_header("agent-a", &[]).is_none());
}

#[test]
fn subagent_header_ignores_warmup_after_first_ten_and_cuts_hint() {
    let long: String = "x".repeat(250);
    let mut msgs = vec![full(MessageType::User, None, None, MessageContent::Text(String::new()), 10)];
    msgs.push(full(MessageType::User, None, None, MessageContent::Text(long), 11));
    for i in 0..8 {
        msgs.push(full(MessageType::Assistant, None, None, MessageContent::Text("a".to_string()), 12 + i));
    }
    msgs.push(full(MessageType::User, None, None, MessageContent::Text("Warmup".to_string()), 30));
    let h = subagent_header("agent-z", &msgs).expect("warm-up beyond the first ten is not read");
    assert_eq!(h.description_hint.as_deref().map(|s| s.chars().count()), Some(200));
    assert_eq!(h.end_ts_ms, Some(30));
}

#[test]
fn block_id_round_trip_with_colons() {
    for uuid in ["", "abc", "ai:r1", "a:b:c", "x::"] {
        for index in [0usize, 7, 42, usize::MAX] {
            let id = format!("{uuid}:{index}");
            assert_eq!(parse_block_id(&id), Some((uuid.to_string(), index)), "id {id}");
        }
    }
}
