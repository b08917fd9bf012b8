use cdt_api::chunk::{
    AiChunk, AssistantResponse, Chunk, ContentBlock, ImageSource, MessageContent, SubagentProcess, ToolExecution,
    ToolOutput, UserChunk,
};
use cdt_api::omit::{
    apply_display_omissions, apply_export_omissions, apply_image_omit, apply_response_content_omit,
    apply_tool_output_omit,
};

fn make_image_block(data: &str, mime: &str) -> ContentBlock {
    ContentBlock::Image {
        source: ImageSource {
            kind: "base64".to_string(),
            media_type: mime.to_string(),
            data: data.to_string(),
            data_omitted: false,
        },
    }
}

fn make_user_chunk_with_image(uuid: &str, data: &str) -> Chunk {
    Chunk::User(UserChunk {
        uuid: uuid.to_string(),
        content: MessageContent::Blocks(vec![
            ContentBlock::Text { text: "see image".to_string() },
            make_image_block(data, "image/png"),
        ]),
    })
}

fn ai(chunk_id: &str, responses: Vec<AssistantResponse>, execs: Vec<ToolExecution>, subs: Vec<SubagentProcess>) -> Chunk {
    Chunk::Ai(AiChunk { chunk_id: chunk_id.to_string(), responses, tool_executions: execs, subagents: subs })
}

fn text_response(uuid: &str, text: &str) -> AssistantResponse {
    AssistantResponse { uuid: uuid.to_string(), content: MessageContent::Text(text.to_string()), usage: None, content_omitted: false }
}

fn make_ai_chunk_with_text(text: &str) -> Chunk {
    ai("ai:r1:0", vec![text_response("r1", text)], Vec::new(), Vec::new())
}

fn make_tool_exec(id: &str, output: ToolOutput) -> ToolExecution {
    ToolExecution { tool_use_id: id.to_string(), output, output_bytes: None, output_omitted: false }
}

fn make_ai_chunk_with_tool(exec: ToolExecution) -> Chunk {
    ai("ai:r1:0", Vec::new(), vec![exec], Vec::new())
}

fn sub(messages: Vec<Chunk>) -> SubagentProcess {
    SubagentProcess { session_id: "sub-1".to_string(), messages, messages_omitted: false }
}

#[test]
fn apply_image_omit_clears_user_image_data() {
    let mut chunks = vec![make_user_chunk_with_image("u1", "AAAAdata")];
    apply_image_omit(&mut chunks);
    let Chunk::User(u) = &chunks[0] else { panic!("expected user chunk") };
    let MessageContent::Blocks(blocks) = &u.content else { panic!("expected blocks") };
    let ContentBlock::Image { source } = &blocks[1] else { panic!("expected image block") };
    assert_eq!(source.data, "");
    assert!(source.data_omitted);
    assert_eq!(source.media_type, "image/png");
    assert_eq!(source.kind, "base64");
    assert!(matches!(blocks[0], ContentBlock::Text { .. }));
}

#[test]
fn apply_image_omit_clears_assistant_response_image() {
    let resp = AssistantResponse {
        uuid: "r1".to_string(),
        content: MessageContent::Blocks(vec![make_image_block("CCCCdata", "image/jpeg")]),
        usage: None,
        content_omitted: false,
    };
    let mut chunks = vec![ai("ai:r1:0", vec![resp], Vec::new(), Vec::new())];
    apply_image_omit(&mut chunks);
    let Chunk::Ai(ai) = &chunks[0] else { panic!("expected ai chunk") };
    let MessageContent::Blocks(blocks) = &ai.responses[0].content else { panic!("expected blocks") };
    let ContentBlock::Image { source } = &blocks[0] else { panic!("expected image block") };
    assert_eq!(source.data, "");
    assert!(source.data_omitted);
    assert_eq!(source.media_type, "image/jpeg");
}

#[test]
fn apply_response_content_omit_clears_assistant_response_content() {
    let mut chunks = vec![make_ai_chunk_with_text("a very long reply ...")];
    apply_response_content_omit(&mut chunks);
    let Chunk::Ai(ai) = &chunks[0] else { panic!("expected ai chunk") };
    let resp = &ai.responses[0];
    assert!(matches!(&resp.content, MessageContent::Text(s) if s.is_empty()));
    assert!(resp.content_omitted);
    assert_eq!(resp.uuid, "r1");
}

#[test]
fn apply_response_content_omit_clears_nested_subagent_response_content() {
    let nested = make_ai_chunk_with_text("reply inside the subagent");
    let parent = ai("ai:parent-r:0", vec![text_response("parent-r", "parent reply")], Vec::new(), vec![sub(vec![nested])]);
    let mut chunks = vec![parent];
    apply_response_content_omit(&mut chunks);
    let Chunk::Ai(ai) = &chunks[0] else { panic!("expected ai chunk") };
    assert!(matches!(&ai.responses[0].content, MessageContent::Text(s) if s.is_empty()));
    assert!(ai.responses[0].content_omitted);
    let Chunk::Ai(nested_ai) = &ai.subagents[0].messages[0] else { panic!("expected nested ai chunk") };
    assert!(matches!(&nested_ai.responses[0].content, MessageContent::Text(s) if s.is_empty()));
    assert!(nested_ai.responses[0].content_omitted);
}

#[test]
fn apply_tool_output_omit_clears_text_variant() {
    let original_text = "very long bash output...";
    let exec = make_tool_exec("tu1", ToolOutput::Text { text: original_text.to_string() });
    let mut chunks = vec![make_ai_chunk_with_tool(exec)];
    apply_tool_output_omit(&mut chunks);
    let Chunk::Ai(ai) = &chunks[0] else { panic!("expected ai chunk") };
    let exec = &ai.tool_executions[0];
    assert!(matches!(&exec.output, ToolOutput::Text { text } if text.is_empty()));
    assert!(exec.output_omitted);
    assert_eq!(exec.output_bytes, Some(original_text.len() as u64));
    assert_eq!(exec.tool_use_id, "tu1");
}

#[test]
fn apply_tool_output_omit_clears_structured_variant() {
    let value: serde_json::Value = serde_json::from_str(r#"{"stdout": "lots", "stderr": ""}"#).unwrap();
    let json = serde_json::to_string(&value).unwrap();
    let expected_bytes = json.len() as u64;
    let exec = make_tool_exec("tu2", ToolOutput::Structured { json });
    let mut chunks = vec![make_ai_chunk_with_tool(exec)];
    apply_tool_output_omit(&mut chunks);
    let Chunk::Ai(ai) = &chunks[0] else { panic!("expected ai chunk") };
    let exec = &ai.tool_executions[0];
    assert!(matches!(&exec.output, ToolOutput::Structured { json } if serde_json::from_str::<serde_json::Value>(json).unwrap().is_null()));
    assert!(exec.output_omitted);
    assert_eq!(exec.output_bytes, Some(expected_bytes));
}

#[test]
fn apply_tool_output_omit_keeps_missing_variant_kind() {
    let exec = make_tool_exec("tu3", ToolOutput::Missing);
    let mut chunks = vec![make_ai_chunk_with_tool(exec)];
    apply_tool_output_omit(&mut chunks);
    let Chunk::Ai(ai) = &chunks[0] else { panic!("expected ai chunk") };
    let exec = &ai.tool_executions[0];
    assert!(matches!(&exec.output, ToolOutput::Missing));
    assert!(exec.output_omitted);
    assert_eq!(exec.output_bytes, None);
}

#[test]
fn apply_tool_output_omit_clears_nested_subagent_tool_output() {
    let nested_exec = make_tool_exec("nested-tu", ToolOutput::Text { text: "nested output".to_string() });
    let nested_ai = make_ai_chunk_with_tool(nested_exec);
    let parent_exec = make_tool_exec("parent-tu", ToolOutput::Text { text: "parent output".to_string() });
    let parent = ai("ai:parent-r:0", Vec::new(), vec![parent_exec], vec![sub(vec![nested_ai])]);
    let mut chunks = vec![parent];
    apply_tool_output_omit(&mut chunks);
    let Chunk::Ai(ai) = &chunks[0] else { panic!("expected ai chunk") };
    assert!(matches!(&ai.tool_executions[0].output, ToolOutput::Text { text } if text.is_empty()));
    assert_eq!(ai.tool_executions[0].output_bytes, Some("parent output".len() as u64));
    let Chunk::Ai(nested) = &ai.subagents[0].messages[0] else { panic!("expected nested ai chunk") };
    assert!(matches!(&nested.tool_executions[0].output, ToolOutput::Text { text } if text.is_empty()));
    assert!(nested.tool_executions[0].output_omitted);
    assert_eq!(nested.tool_executions[0].output_bytes, Some("nested output".len() as u64));
}

#[test]
fn tool_output_size_counts_utf8_bytes() {
    let exec = make_tool_exec("tu", ToolOutput::Text { text: "中文é".to_string() });
    let mut chunks = vec![make_ai_chunk_with_tool(exec)];
    apply_tool_output_omit(&mut chunks);
    let Chunk::Ai(ai) = &chunks[0] else { panic!("expected ai chunk") };
    assert_eq!(ai.tool_executions[0].output_bytes, Some(8));
}

#[test]
fn display_omissions_trim_everything_and_drop_subagent_messages() {
    let nested = make_ai_chunk_with_text("nested");
    let parent = ai(
        "p",
        vec![text_response("r", "reply")],
        vec![make_tool_exec("t", ToolOutput::Text { text: "out".to_string() })],
        vec![sub(vec![nested])],
    );
    let mut chunks = vec![make_user_chunk_with_image("u", "DATA"), parent];
    apply_display_omissions(&mut chunks);
    let Chunk::Ai(ai) = &chunks[1] else { panic!("expected ai chunk") };
    assert!(ai.responses[0].content_omitted);
    assert!(ai.tool_executions[0].output_omitted);
    assert!(ai.subagents[0].messages.is_empty());
    assert!(ai.subagents[0].messages_omitted);
    let Chunk::User(u) = &chunks[0] else { panic!("expected user chunk") };
    let MessageContent::Blocks(blocks) = &u.content else { panic!("expected blocks") };
    let ContentBlock::Image { source } = &blocks[1] else { panic!("expected image block") };
    assert!(source.data_omitted);
}

#[test]
fn export_omissions_keep_responses_and_tool_output() {
    let parent = ai(
        "p",
        vec![text_response("r", "reply")],
        vec![make_tool_exec("t", ToolOutput::Text { text: "out".to_string() })],
        vec![sub(vec![make_ai_chunk_with_text("nested")])],
    );
    let mut chunks = vec![parent];
    apply_export_omissions(&mut chunks);
    let Chunk::Ai(ai) = &chunks[0] else { panic!("expected ai chunk") };
    assert!(matches!(&ai.responses[0].content, MessageContent::Text(s) if s == "reply"));
    assert!(!ai.responses[0].content_omitted);
    assert!(matches!(&ai.tool_executions[0].output, ToolOutput::Text { text } if text == "out"));
    assert!(!ai.tool_executions[0].output_omitted);
    assert!(ai.subagents[0].messages.is_empty());
    assert!(ai.subagents[0].messages_omitted);
}

#[test]
fn find_tool_output_takes_first_matching_execution() {
    let chunks = vec![
        Chunk::User(UserChunk { uuid: "u1".to_string(), content: MessageContent::Text("hi".to_string()) }),
        ai(
            "ai:a:0",
            Vec::new(),
            vec![make_tool_exec("t1", ToolOutput::Text { text: "one".to_string() })],
            Vec::new(),
        ),
        ai(
            "ai:b:0",
            Vec::new(),
            vec![
                make_tool_exec("t2", ToolOutput::Structured { json: "{}".to_string() }),
                make_tool_exec("t1", ToolOutput::Text { text: "later".to_string() }),
            ],
            Vec::new(),
        ),
    ];
    match cdt_api::chunk::find_tool_output(&chunks, "t1") {
        Some(ToolOutput::Text { text }) => assert_eq!(text, "one"),
        other => panic!("unexpected {other:?}"),
    }
    match cdt_api::chunk::find_tool_output(&chunks, "t2") {
        Some(ToolOutput::Structured { json }) => assert_eq!(json, "{}"),
        other => panic!("unexpected {other:?}"),
    }
    assert!(cdt_api::chunk::find_tool_output(&chunks, "t3").is_none());
    assert!(cdt_api::chunk::find_tool_output(&[], "t1").is_none());
}
