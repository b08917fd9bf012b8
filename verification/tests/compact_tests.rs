use cdt_api::chunk::{
    ai_first_response_total_tokens, ai_last_response_total_tokens, apply_compact_derived, compute_new_tokens_by_category,
    find_first_ai_after, find_last_ai_before, token_usage_total, AiChunk, AssistantResponse, Chunk, CompactChunk,
    CompactionTokenDelta, ContextInjection, InjectionCategory, MessageContent, SystemChunk, TokenUsage, UserChunk,
};

fn response(uuid: &str, usage: Option<TokenUsage>) -> AssistantResponse {
    AssistantResponse {
        uuid: uuid.to_string(),
        content: MessageContent::Text(String::new()),
        usage,
        content_omitted: false,
    }
}

fn usage(total: u64) -> TokenUsage {
    TokenUsage { input_tokens: total, output_tokens: 0, cache_read_input_tokens: 0, cache_creation_input_tokens: 0 }
}

fn ai_chunk_with_usage(uuid: &str, total_tokens: u64) -> Chunk {
    Chunk::Ai(AiChunk {
        chunk_id: format!("ai:{uuid}:0"),
        responses: vec![response(uuid, Some(usage(total_tokens)))],
        tool_executions: Vec::new(),
        subagents: Vec::new(),
    })
}

fn ai_chunk_no_usage(uuid: &str) -> Chunk {
    Chunk::Ai(AiChunk {
        chunk_id: format!("ai:{uuid}:0"),
        responses: vec![response(uuid, None)],
        tool_executions: Vec::new(),
        subagents: Vec::new(),
    })
}

fn compact_chunk_test(uuid: &str) -> Chunk {
    Chunk::Compact(CompactChunk {
        uuid: uuid.to_string(),
        summary_text: "summary".to_string(),
        token_delta: None,
        phase_number: None,
    })
}

fn user_chunk_test(uuid: &str) -> Chunk {
    Chunk::User(UserChunk { uuid: uuid.to_string(), content: MessageContent::Text("user".to_string()) })
}

fn system_chunk_test(uuid: &str) -> Chunk {
    Chunk::System(SystemChunk { uuid: uuid.to_string(), content_text: "sys".to_string() })
}

fn extract_compact(chunks: &[Chunk], idx: usize) -> &CompactChunk {
    if let Chunk::Compact(c) = &chunks[idx] {
        c
    } else {
        panic!("expected compact at index {idx}")
    }
}

#[test]
fn derive_token_delta_computed_from_neighboring_ai() {
    let mut chunks = vec![ai_chunk_with_usage("ai-1", 30_000), compact_chunk_test("c-1"), ai_chunk_with_usage("ai-2", 5_000)];
    apply_compact_derived(&mut chunks, true);
    let c = extract_compact(&chunks, 1);
    assert_eq!(
        c.token_delta,
        Some(CompactionTokenDelta { pre_compaction_tokens: 30_000, post_compaction_tokens: 5_000, delta: -25_000 })
    );
}

#[test]
fn derive_token_delta_none_when_no_ai_before() {
    let mut chunks = vec![user_chunk_test("u-1"), compact_chunk_test("c-1"), ai_chunk_with_usage("ai-1", 5_000)];
    apply_compact_derived(&mut chunks, true);
    assert_eq!(extract_compact(&chunks, 1).token_delta, None);
}

#[test]
fn derive_token_delta_none_when_no_ai_after() {
    let mut chunks = vec![ai_chunk_with_usage("ai-1", 30_000), compact_chunk_test("c-1")];
    apply_compact_derived(&mut chunks, true);
    assert_eq!(extract_compact(&chunks, 1).token_delta, None);
}

#[test]
fn derive_token_delta_none_when_ai_lacks_usage() {
    let mut chunks = vec![ai_chunk_no_usage("ai-1"), compact_chunk_test("c-1"), ai_chunk_with_usage("ai-2", 5_000)];
    apply_compact_derived(&mut chunks, true);
    assert_eq!(extract_compact(&chunks, 1).token_delta, None);
}

#[test]
fn derive_consecutive_compacts_share_identical_token_delta() {
    let mut chunks = vec![
        ai_chunk_with_usage("ai-1", 30_000),
        compact_chunk_test("c-1"),
        compact_chunk_test("c-2"),
        ai_chunk_with_usage("ai-2", 5_000),
    ];
    apply_compact_derived(&mut chunks, true);
    let c1 = extract_compact(&chunks, 1).token_delta;
    let c2 = extract_compact(&chunks, 2).token_delta;
    assert_eq!(c1, c2, "consecutive compacts should share identical delta");
    assert_eq!(
        c1,
        Some(CompactionTokenDelta { pre_compaction_tokens: 30_000, post_compaction_tokens: 5_000, delta: -25_000 })
    );
}

#[test]
fn derive_phase_number_assigned_by_ordinal() {
    let mut chunks = vec![
        user_chunk_test("u-1"),
        ai_chunk_with_usage("ai-1", 100),
        compact_chunk_test("c-1"),
        ai_chunk_with_usage("ai-2", 50),
    ];
    apply_compact_derived(&mut chunks, true);
    assert_eq!(extract_compact(&chunks, 2).phase_number, Some(2));
}

#[test]
fn derive_consecutive_compacts_get_distinct_phase_numbers() {
    let mut chunks = vec![
        ai_chunk_with_usage("ai-1", 100),
        compact_chunk_test("c-1"),
        compact_chunk_test("c-2"),
        ai_chunk_with_usage("ai-2", 50),
    ];
    apply_compact_derived(&mut chunks, true);
    assert_eq!(extract_compact(&chunks, 1).phase_number, Some(2));
    assert_eq!(extract_compact(&chunks, 2).phase_number, Some(3));
}

#[test]
fn derive_phase_number_stable_when_compact_at_end() {
    let mut chunks = vec![
        ai_chunk_with_usage("ai-1", 100),
        compact_chunk_test("c-1"),
        ai_chunk_with_usage("ai-2", 50),
        compact_chunk_test("c-2"),
    ];
    apply_compact_derived(&mut chunks, true);
    assert_eq!(extract_compact(&chunks, 1).phase_number, Some(2));
    assert_eq!(extract_compact(&chunks, 3).phase_number, Some(3));
}

#[test]
fn derive_compact_followed_only_by_user_and_system() {
    let mut chunks = vec![
        ai_chunk_with_usage("ai-1", 100),
        compact_chunk_test("c-1"),
        user_chunk_test("u-1"),
        system_chunk_test("s-1"),
    ];
    apply_compact_derived(&mut chunks, true);
    assert_eq!(extract_compact(&chunks, 1).phase_number, Some(2));
    assert_eq!(extract_compact(&chunks, 1).token_delta, None);
}

#[test]
fn derive_disabled_returns_all_none() {
    let mut chunks = vec![
        ai_chunk_with_usage("ai-1", 30_000),
        compact_chunk_test("c-1"),
        compact_chunk_test("c-2"),
        ai_chunk_with_usage("ai-2", 5_000),
    ];
    apply_compact_derived(&mut chunks, false);
    for idx in [1, 2] {
        assert_eq!(extract_compact(&chunks, idx).token_delta, None);
        assert_eq!(extract_compact(&chunks, idx).phase_number, None);
    }
}

#[test]
fn derive_delta_saturates_huge_usage_to_i64_max() {
    let mut chunks = vec![ai_chunk_with_usage("ai-1", u64::MAX), compact_chunk_test("c-1"), ai_chunk_with_usage("ai-2", 10)];
    apply_compact_derived(&mut chunks, true);
    assert_eq!(
        extract_compact(&chunks, 1).token_delta,
        Some(CompactionTokenDelta { pre_compaction_tokens: u64::MAX, post_compaction_tokens: 10, delta: 10 - i64::MAX })
    );
}

#[test]
fn token_usage_total_adds_and_detects_overflow() {
    let u = TokenUsage { input_tokens: 1, output_tokens: 2, cache_read_input_tokens: 3, cache_creation_input_tokens: 4 };
    assert_eq!(token_usage_total(&u), Some(10));
    let big = TokenUsage { input_tokens: u64::MAX, output_tokens: 1, cache_read_input_tokens: 0, cache_creation_input_tokens: 0 };
    assert_eq!(token_usage_total(&big), None);
}

#[test]
fn first_and_last_usage_skip_responses_without_usage() {
    let ai = AiChunk {
        chunk_id: "ai".to_string(),
        responses: vec![response("a", None), response("b", Some(usage(7))), response("c", Some(usage(9))), response("d", None)],
        tool_executions: Vec::new(),
        subagents: Vec::new(),
    };
    assert_eq!(ai_first_response_total_tokens(&ai), Some(7));
    assert_eq!(ai_last_response_total_tokens(&ai), Some(9));
}

#[test]
fn neighbouring_ai_lookup() {
    let chunks = vec![ai_chunk_with_usage("a", 1), user_chunk_test("u"), compact_chunk_test("c"), ai_chunk_with_usage("b", 2)];
    assert_eq!(find_last_ai_before(&chunks, 2).map(|a| a.chunk_id.clone()), Some("ai:a:0".to_string()));
    assert_eq!(find_first_ai_after(&chunks, 2).map(|a| a.chunk_id.clone()), Some("ai:b:0".to_string()));
    assert!(find_last_ai_before(&chunks, 0).is_none());
    assert!(find_first_ai_after(&chunks, 3).is_none());
}

#[test]
fn tokens_by_category_sums_per_kind() {
    let injs = vec![
        ContextInjection { category: InjectionCategory::ClaudeMd, estimated_tokens: 10 },
        ContextInjection { category: InjectionCategory::ToolOutput, estimated_tokens: 5 },
        ContextInjection { category: InjectionCategory::ClaudeMd, estimated_tokens: 7 },
        ContextInjection { category: InjectionCategory::UserMessage, estimated_tokens: 3 },
    ];
    let t = compute_new_tokens_by_category(&injs);
    assert_eq!(t.claude_md, 17);
    assert_eq!(t.tool_output, 5);
    assert_eq!(t.user_messages, 3);
    assert_eq!(t.mentioned_file, 0);
    assert_eq!(t.thinking_text, 0);
    assert_eq!(t.task_coordination, 0);
}

#[test]
fn turn_stats_skip_turns_without_new_injections() {
    let zero = cdt_api::chunk::CountsByCategory {
        claude_md: 0,
        mentioned_file: 0,
        tool_output: 0,
        thinking_text: 0,
        task_coordination: 0,
        user_messages: 0,
    };
    let cumulative = compute_new_tokens_by_category(&[]);
    assert!(cdt_api::chunk::turn_context_stats(zero, &[], 0, cumulative).is_none());
}

#[test]
fn turn_stats_sum_new_injections() {
    let counts = cdt_api::chunk::CountsByCategory {
        claude_md: 1,
        mentioned_file: 0,
        tool_output: 2,
        thinking_text: 0,
        task_coordination: 0,
        user_messages: 0,
    };
    let injections = vec![
        ContextInjection { category: InjectionCategory::ClaudeMd, estimated_tokens: 10 },
        ContextInjection { category: InjectionCategory::ToolOutput, estimated_tokens: 5 },
        ContextInjection { category: InjectionCategory::ToolOutput, estimated_tokens: 7 },
    ];
    let cumulative = compute_new_tokens_by_category(&injections);
    let t = cdt_api::chunk::turn_context_stats(counts, &injections, 99, cumulative).expect("stats");
    assert_eq!(t.new_count, 3);
    assert_eq!(t.new_tokens, 22);
    assert_eq!(t.new_tokens_by_category.claude_md, 10);
    assert_eq!(t.new_tokens_by_category.tool_output, 12);
    assert_eq!(t.counts_by_category, counts);
    assert_eq!(t.cumulative_estimated_tokens, 99);
    assert_eq!(t.cumulative_tokens_by_category, cumulative);
}

#[test]
fn turn_stats_count_saturates() {
    let counts = cdt_api::chunk::CountsByCategory {
        claude_md: u32::MAX as usize,
        mentioned_file: 5,
        tool_output: 0,
        thinking_text: 0,
        task_coordination: 0,
        user_messages: 0,
    };
    let cumulative = compute_new_tokens_by_category(&[]);
    let t = cdt_api::chunk::turn_context_stats(counts, &[], 0, cumulative).expect("stats");
    assert_eq!(t.new_count, u32::MAX);
    assert_eq!(t.new_tokens, 0);
}
