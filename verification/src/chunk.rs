//! Session chunks as the viewer shows them, and the metadata derived for
//! compaction boundaries: the phase each compaction opens and how the
//! context size changed across it.

use vstd::prelude::*;

verus! {

/// Token counts reported for one assistant response.
#[derive(Debug, Clone, Copy, PartialEq, Eq, Structural)]
pub struct TokenUsage {
    pub input_tokens: u64,
    pub output_tokens: u64,
    pub cache_read_input_tokens: u64,
    pub cache_creation_input_tokens: u64,
}

/// Payload of an image block.
#[derive(Debug)]
pub struct ImageSource {
    pub kind: String,
    pub media_type: String,
    pub data: String,
    pub data_omitted: bool,
}

/// One block of message content.
#[derive(Debug)]
pub enum ContentBlock {
    Text { text: String },
    Image { source: ImageSource },
    /// Any other block (tool use, tool result, thinking); carried through.
    Other { kind: String },
}

/// Message content: plain text or a list of blocks.
#[derive(Debug)]
pub enum MessageContent {
    Text(String),
    Blocks(Vec<ContentBlock>),
}

/// One assistant response inside an AI chunk.
#[derive(Debug)]
pub struct AssistantResponse {
    pub uuid: String,
    pub content: MessageContent,
    pub usage: Option<TokenUsage>,
    pub content_omitted: bool,
}

/// Output of a tool execution; a structured output is held as its JSON text.
#[derive(Debug)]
pub enum ToolOutput {
    Text { text: String },
    Structured { json: String },
    Missing,
}

/// One tool execution of an AI chunk.
#[derive(Debug)]
pub struct ToolExecution {
    pub tool_use_id: String,
    pub output: ToolOutput,
    pub output_bytes: Option<u64>,
    pub output_omitted: bool,
}

/// A subagent run started from an AI chunk, with its own chunks.
#[derive(Debug)]
pub struct SubagentProcess {
    pub session_id: String,
    pub messages: Vec<Chunk>,
    pub messages_omitted: bool,
}

/// A run of assistant activity.
#[derive(Debug)]
pub struct AiChunk {
    pub chunk_id: String,
    pub responses: Vec<AssistantResponse>,
    pub tool_executions: Vec<ToolExecution>,
    pub subagents: Vec<SubagentProcess>,
}

/// A user message.
#[derive(Debug)]
pub struct UserChunk {
    pub uuid: String,
    pub content: MessageContent,
}

/// A system message.
#[derive(Debug)]
pub struct SystemChunk {
    pub uuid: String,
    pub content_text: String,
}

/// Context size before and after a compaction, and their difference.
#[derive(Debug, Clone, Copy, PartialEq, Eq, Structural)]
pub struct CompactionTokenDelta {
    pub pre_compaction_tokens: u64,
    pub post_compaction_tokens: u64,
    pub delta: i64,
}

/// A compaction boundary with its derived metadata.
#[derive(Debug)]
pub struct CompactChunk {
    pub uuid: String,
    pub summary_text: String,
    pub token_delta: Option<CompactionTokenDelta>,
    pub phase_number: Option<u32>,
}

/// One chunk of a session.
#[derive(Debug)]
pub enum Chunk {
    User(UserChunk),
    Ai(AiChunk),
    System(SystemChunk),
    Compact(CompactChunk),
}

/// Sum of the four counts of `u`, `None` where it exceeds `u64::MAX`.
pub open spec fn usage_total(u: TokenUsage) -> Option<u64> {
    let t = u.input_tokens + u.output_tokens + u.cache_read_input_tokens + u.cache_creation_input_tokens;
    if t <= u64::MAX {
        Some(t as u64)
    } else {
        None
    }
}

/// The four counts of a usage record added with overflow checks.
pub fn token_usage_total(u: &TokenUsage) -> (r: Option<u64>)
    ensures
        r == usage_total(*u),
{
    let a = match u.input_tokens.checked_add(u.output_tokens) {
        Some(a) => a,
        None => return None,
    };
    let b = match a.checked_add(u.cache_read_input_tokens) {
        Some(b) => b,
        None => return None,
    };
    b.checked_add(u.cache_creation_input_tokens)
}

/// Usage total of one response.
pub open spec fn response_total(r: AssistantResponse) -> Option<u64> {
    match r.usage {
        Some(u) => usage_total(u),
        None => None,
    }
}

/// Total of the last response whose usage has one.
pub open spec fn last_response_total(rs: Seq<AssistantResponse>) -> Option<u64>
    decreases rs.len(),
{
    if rs.len() == 0 {
        None
    } else {
        match response_total(rs.last()) {
            Some(t) => Some(t),
            None => last_response_total(rs.drop_last()),
        }
    }
}

/// Total of the first response whose usage has one.
pub open spec fn first_response_total(rs: Seq<AssistantResponse>) -> Option<u64>
    decreases rs.len(),
{
    if rs.len() == 0 {
        None
    } else {
        match response_total(rs[0]) {
            Some(t) => Some(t),
            None => first_response_total(rs.drop_first()),
        }
    }
}

fn response_usage_total(r: &AssistantResponse) -> (t: Option<u64>)
    ensures
        t == response_total(*r),
{
    match &r.usage {
        Some(u) => token_usage_total(u),
        None => None,
    }
}

/// Context size at the end of an AI chunk: the total of its last response
/// that reports usage.
pub fn ai_last_response_total_tokens(ai: &AiChunk) -> (r: Option<u64>)
    ensures
        r == last_response_total(ai.responses@),
{
    let rs = &ai.responses;
    let mut i: usize = rs.len();
    assert(rs@.take(i as int) =~= rs@);
    while i > 0
        invariant
            i <= rs@.len(),
            rs@ == ai.responses@,
            last_response_total(rs@.take(i as int)) == last_response_total(rs@),
        decreases i,
    {
        assert(rs@.take(i as int).last() == rs@[i - 1]);
        assert(rs@.take(i as int).drop_last() =~= rs@.take(i - 1));
        match response_usage_total(&rs[i - 1]) {
            Some(t) => {
                assert(last_response_total(rs@.take(i as int)) == Some(t));
                return Some(t);
            },
            None => {},
        }
        i = i - 1;
    }
    None
}

/// Context size at the start of an AI chunk: the total of its first
/// response that reports usage.
pub fn ai_first_response_total_tokens(ai: &AiChunk) -> (r: Option<u64>)
    ensures
        r == first_response_total(ai.responses@),
{
    let rs = &ai.responses;
    let mut i: usize = 0;
    assert(rs@.skip(0) =~= rs@);
    while i < rs.len()
        invariant
            i <= rs@.len(),
            rs@ == ai.responses@,
            first_response_total(rs@.skip(i as int)) == first_response_total(rs@),
        decreases rs@.len() - i,
    {
        assert(rs@.skip(i as int)[0] == rs@[i as int]);
        assert(rs@.skip(i as int).drop_first() =~= rs@.skip(i + 1));
        match response_usage_total(&rs[i]) {
            Some(t) => {
                assert(first_response_total(rs@.skip(i as int)) == Some(t));
                return Some(t);
            },
            None => {},
        }
        i = i + 1;
    }
    None
}

/// The last AI chunk strictly before index `i`.
pub open spec fn last_ai_before(cs: Seq<Chunk>, i: int) -> Option<AiChunk>
    decreases i,
{
    if i <= 0 || i > cs.len() {
        None
    } else {
        match cs[i - 1] {
            Chunk::Ai(a) => Some(a),
            _ => last_ai_before(cs, i - 1),
        }
    }
}

/// The first AI chunk strictly after index `i`.
pub open spec fn first_ai_after(cs: Seq<Chunk>, i: int) -> Option<AiChunk>
    decreases cs.len() - i,
{
    if i < -1 || i + 1 >= cs.len() {
        None
    } else {
        match cs[i + 1] {
            Chunk::Ai(a) => Some(a),
            _ => first_ai_after(cs, i + 1),
        }
    }
}

/// The last AI chunk before position `i`.
pub fn find_last_ai_before(chunks: &[Chunk], i: usize) -> (r: Option<&AiChunk>)
    requires
        i <= chunks@.len(),
    ensures
        match r {
            Some(a) => last_ai_before(chunks@, i as int) == Some(*a),
            None => last_ai_before(chunks@, i as int) is None,
        },
{
    let mut k: usize = i;
    while k > 0
        invariant
            k <= i <= chunks@.len(),
            last_ai_before(chunks@, k as int) == last_ai_before(chunks@, i as int),
        decreases k,
    {
        match &chunks[k - 1] {
            Chunk::Ai(a) => return Some(a),
            _ => {},
        }
        k = k - 1;
    }
    None
}

/// The first AI chunk after position `i`.
pub fn find_first_ai_after(chunks: &[Chunk], i: usize) -> (r: Option<&AiChunk>)
    requires
        i < chunks@.len(),
    ensures
        match r {
            Some(a) => first_ai_after(chunks@, i as int) == Some(*a),
            None => first_ai_after(chunks@, i as int) is None,
        },
{
    let n = chunks.len();
    let mut k: usize = i + 1;
    while k < n
        invariant
            n == chunks@.len(),
            i < k <= chunks@.len(),
            first_ai_after(chunks@, k - 1) == first_ai_after(chunks@, i as int),
        decreases chunks@.len() - k,
    {
        match &chunks[k] {
            Chunk::Ai(a) => return Some(a),
            _ => {},
        }
        k = k + 1;
    }
    None
}

/// `n` as an `i64`, saturated at `i64::MAX`.
pub open spec fn sat_i64(n: u64) -> int {
    if n > i64::MAX {
        i64::MAX as int
    } else {
        n as int
    }
}

/// The token change across the compaction at `i`: from the last usage of
/// the AI chunk before it to the first usage of the AI chunk after it;
/// `None` when either is missing.
pub open spec fn compact_delta(cs: Seq<Chunk>, i: int) -> Option<CompactionTokenDelta> {
    let pre = match last_ai_before(cs, i) {
        Some(a) => last_response_total(a.responses@),
        None => None,
    };
    let post = match first_ai_after(cs, i) {
        Some(a) => first_response_total(a.responses@),
        None => None,
    };
    match (pre, post) {
        (Some(p), Some(q)) => Some(
            CompactionTokenDelta {
                pre_compaction_tokens: p,
                post_compaction_tokens: q,
                delta: (sat_i64(q) - sat_i64(p)) as i64,
            },
        ),
        _ => None,
    }
}

/// Number of compaction chunks in `cs[..i]`.
pub open spec fn compacts_before(cs: Seq<Chunk>, i: int) -> nat
    decreases i,
{
    if i <= 0 || i > cs.len() {
        0
    } else {
        compacts_before(cs, i - 1) + if cs[i - 1] is Compact {
            1nat
        } else {
            0nat
        }
    }
}

/// The chunk at `i` with its compaction metadata derived: a compaction
/// opens phase `k + 2` when `k` compactions come before it.
pub open spec fn derived_chunk(cs: Seq<Chunk>, i: int) -> Chunk {
    match cs[i] {
        Chunk::Compact(c) => Chunk::Compact(
            CompactChunk {
                token_delta: compact_delta(cs, i),
                phase_number: Some((compacts_before(cs, i) + 2) as u32),
                ..c
            },
        ),
        other => other,
    }
}

proof fn lemma_compacts_before_bound(cs: Seq<Chunk>, i: int)
    requires
        0 <= i <= cs.len(),
    ensures
        compacts_before(cs, i) <= compacts_before(cs, cs.len() as int),
        compacts_before(cs, i) <= i,
    decreases cs.len() - i,
{
    if i < cs.len() {
        lemma_compacts_before_bound(cs, i + 1);
    }
    lemma_compacts_before_le(cs, i);
}

proof fn lemma_compacts_before_le(cs: Seq<Chunk>, i: int)
    requires
        0 <= i <= cs.len(),
    ensures
        compacts_before(cs, i) <= i,
    decreases i,
{
    if i > 0 {
        lemma_compacts_before_le(cs, i - 1);
    }
}

/// Fills in the phase number and token delta of every compaction chunk
/// when `enabled`; leaves every other chunk, and everything when not
/// enabled, as it was.
pub fn apply_compact_derived(chunks: &mut Vec<Chunk>, enabled: bool)
    requires
        compacts_before(old(chunks)@, old(chunks)@.len() as int) + 2 <= u32::MAX,
    ensures
        !enabled ==> final(chunks)@ == old(chunks)@,
        enabled ==> final(chunks)@.len() == old(chunks)@.len() && forall|i: int|
            0 <= i < old(chunks)@.len() ==> #[trigger] final(chunks)@[i] == derived_chunk(old(chunks)@, i),
{
    if !enabled {
        return;
    }
    let ghost cs = chunks@;
    let mut counter: u32 = 1;
    let mut updates: Vec<(usize, Option<CompactionTokenDelta>, u32)> = Vec::new();
    let mut i: usize = 0;
    while i < chunks.len()
        invariant
            cs == chunks@,
            i <= cs.len(),
            compacts_before(cs, cs.len() as int) + 2 <= u32::MAX,
            counter == compacts_before(cs, i as int) + 1,
            forall|k: int| 0 <= k < updates@.len() ==> {
                let (j, d, p) = #[trigger] updates@[k];
                &&& j < i
                &&& cs[j as int] is Compact
                &&& d == compact_delta(cs, j as int)
                &&& p == compacts_before(cs, j as int) + 2
            },
            forall|k1: int, k2: int| 0 <= k1 < k2 < updates@.len() ==> (#[trigger] updates@[k1]).0 < (#[trigger] updates@[k2]).0,
            forall|j: int| 0 <= j < i && (#[trigger] cs[j]) is Compact ==> exists|k: int|
                0 <= k < updates@.len() && (#[trigger] updates@[k]).0 == j,
        decreases cs.len() - i,
    {
        proof {
            lemma_compacts_before_bound(cs, i + 1);
        }
        if let Chunk::Compact(_) = &chunks[i] {
            let pre = match find_last_ai_before(chunks.as_slice(), i) {
                Some(a) => ai_last_response_total_tokens(a),
                None => None,
            };
            let post = match find_first_ai_after(chunks.as_slice(), i) {
                Some(a) => ai_first_response_total_tokens(a),
                None => None,
            };
            let delta = match (pre, post) {
                (Some(p), Some(q)) => {
                    let p_i: i64 = if p > i64::MAX as u64 {
                        i64::MAX
                    } else {
                        p as i64
                    };
                    let q_i: i64 = if q > i64::MAX as u64 {
                        i64::MAX
                    } else {
                        q as i64
                    };
                    Some(CompactionTokenDelta { pre_compaction_tokens: p, post_compaction_tokens: q, delta: q_i - p_i })
                },
                _ => None,
            };
            counter = counter + 1;
            let ghost before = updates@;
            updates.push((i, delta, counter));
            proof {
                assert forall|j: int| 0 <= j < i + 1 && (#[trigger] cs[j]) is Compact implies exists|k: int|
                    0 <= k < updates@.len() && (#[trigger] updates@[k]).0 == j by {
                    if j == i {
                        assert(updates@[before.len() as int].0 == j);
                    } else {
                        let k = choose|k: int| 0 <= k < before.len() && (#[trigger] before[k]).0 == j;
                        assert(updates@[k] == before[k]);
                    }
                }
            }
        }
        i = i + 1;
    }
    let mut u: usize = 0;
    while u < updates.len()
        invariant
            chunks@.len() == cs.len(),
            u <= updates@.len(),
            forall|k: int| 0 <= k < updates@.len() ==> {
                let (j, d, p) = #[trigger] updates@[k];
                &&& j < cs.len()
                &&& cs[j as int] is Compact
                &&& d == compact_delta(cs, j as int)
                &&& p == compacts_before(cs, j as int) + 2
            },
            forall|k1: int, k2: int| 0 <= k1 < k2 < updates@.len() ==> (#[trigger] updates@[k1]).0 < (#[trigger] updates@[k2]).0,
            forall|j: int| 0 <= j < cs.len() && (#[trigger] cs[j]) is Compact ==> exists|k: int|
                0 <= k < updates@.len() && (#[trigger] updates@[k]).0 == j,
            forall|k: int| 0 <= k < u ==> #[trigger] chunks@[updates@[k].0 as int] == derived_chunk(cs, updates@[k].0 as int),
            forall|j: int| 0 <= j < cs.len() && (forall|k: int| 0 <= k < u ==> (#[trigger] updates@[k]).0 != j)
                ==> #[trigger] chunks@[j] == cs[j],
        decreases updates@.len() - u,
    {
        let (j, d, p) = updates[u];
        let ghost prev = chunks@;
        match &mut chunks[j] {
            Chunk::Compact(c) => {
                c.token_delta = d;
                c.phase_number = Some(p);
            },
            _ => {},
        }
        proof {
            assert(chunks@[j as int] == derived_chunk(cs, j as int));
            assert forall|i2: int| 0 <= i2 < cs.len() && i2 != j implies chunks@[i2] == prev[i2] by {}
        }
        u = u + 1;
    }
    proof {
        assert forall|i2: int| 0 <= i2 < cs.len() implies #[trigger] chunks@[i2] == derived_chunk(cs, i2) by {
            if cs[i2] is Compact {
                let k = choose|k: int| 0 <= k < updates@.len() && (#[trigger] updates@[k]).0 == i2;
                assert(chunks@[updates@[k].0 as int] == derived_chunk(cs, updates@[k].0 as int));
            } else {
                if exists|k: int| 0 <= k < updates@.len() && (#[trigger] updates@[k]).0 == i2 {
                    let k = choose|k: int| 0 <= k < updates@.len() && (#[trigger] updates@[k]).0 == i2;
                    assert(cs[updates@[k].0 as int] is Compact);
                }
                assert(chunks@[i2] == cs[i2]);
            }
        }
    }
}

/// Kind of context that an injection brought into the conversation.
#[derive(Debug, Clone, Copy, PartialEq, Eq, Structural)]
pub enum InjectionCategory {
    ClaudeMd,
    MentionedFile,
    ToolOutput,
    ThinkingText,
    TaskCoordination,
    UserMessage,
}

/// One context injection with its estimated token count.
#[derive(Debug)]
pub struct ContextInjection {
    pub category: InjectionCategory,
    pub estimated_tokens: u64,
}

/// Estimated tokens per injection category.
#[derive(Debug, Clone, Copy, PartialEq, Eq, Structural)]
pub struct TokensByCategory {
    pub claude_md: u64,
    pub mentioned_file: u64,
    pub tool_output: u64,
    pub thinking_text: u64,
    pub task_coordination: u64,
    pub user_messages: u64,
}

/// Sum of the estimated tokens of the injections of category `c`.
pub open spec fn category_total(injs: Seq<ContextInjection>, c: InjectionCategory) -> int
    decreases injs.len(),
{
    if injs.len() == 0 {
        0
    } else {
        category_total(injs.drop_last(), c) + if injs.last().category == c {
            injs.last().estimated_tokens as int
        } else {
            0
        }
    }
}

proof fn lemma_category_total_monotone(injs: Seq<ContextInjection>, c: InjectionCategory, i: int)
    requires
        0 <= i <= injs.len(),
    ensures
        0 <= category_total(injs.take(i), c) <= category_total(injs, c),
    decreases injs.len() - i,
{
    if i < injs.len() {
        lemma_category_total_monotone(injs, c, i + 1);
        assert(injs.take(i + 1).drop_last() =~= injs.take(i));
    } else {
        assert(injs.take(i) =~= injs);
    }
    lemma_category_total_nonneg(injs.take(i), c);
}

proof fn lemma_category_total_nonneg(injs: Seq<ContextInjection>, c: InjectionCategory)
    ensures
        0 <= category_total(injs, c),
    decreases injs.len(),
{
    if injs.len() > 0 {
        lemma_category_total_nonneg(injs.drop_last(), c);
    }
}

/// Totals the estimated tokens of the injections per category.
pub fn compute_new_tokens_by_category(injections: &[ContextInjection]) -> (r: TokensByCategory)
    requires
        category_total(injections@, InjectionCategory::ClaudeMd) <= u64::MAX,
        category_total(injections@, InjectionCategory::MentionedFile) <= u64::MAX,
        category_total(injections@, InjectionCategory::ToolOutput) <= u64::MAX,
        category_total(injections@, InjectionCategory::ThinkingText) <= u64::MAX,
        category_total(injections@, InjectionCategory::TaskCoordination) <= u64::MAX,
        category_total(injections@, InjectionCategory::UserMessage) <= u64::MAX,
    ensures
        r.claude_md == category_total(injections@, InjectionCategory::ClaudeMd),
        r.mentioned_file == category_total(injections@, InjectionCategory::MentionedFile),
        r.tool_output == category_total(injections@, InjectionCategory::ToolOutput),
        r.thinking_text == category_total(injections@, InjectionCategory::ThinkingText),
        r.task_coordination == category_total(injections@, InjectionCategory::TaskCoordination),
        r.user_messages == category_total(injections@, InjectionCategory::UserMessage),
{
    let ghost s = injections@;
    let mut t = TokensByCategory {
        claude_md: 0,
        mentioned_file: 0,
        tool_output: 0,
        thinking_text: 0,
        task_coordination: 0,
        user_messages: 0,
    };
    let mut i: usize = 0;
    assert(s.take(0) =~= Seq::<ContextInjection>::empty());
    while i < injections.len()
        invariant
            s == injections@,
            i <= s.len(),
            category_total(s, InjectionCategory::ClaudeMd) <= u64::MAX,
            category_total(s, InjectionCategory::MentionedFile) <= u64::MAX,
            category_total(s, InjectionCategory::ToolOutput) <= u64::MAX,
            category_total(s, InjectionCategory::ThinkingText) <= u64::MAX,
            category_total(s, InjectionCategory::TaskCoordination) <= u64::MAX,
            category_total(s, InjectionCategory::UserMessage) <= u64::MAX,
            t.claude_md == category_total(s.take(i as int), InjectionCategory::ClaudeMd),
            t.mentioned_file == category_total(s.take(i as int), InjectionCategory::MentionedFile),
            t.tool_output == category_total(s.take(i as int), InjectionCategory::ToolOutput),
            t.thinking_text == category_total(s.take(i as int), InjectionCategory::ThinkingText),
            t.task_coordination == category_total(s.take(i as int), InjectionCategory::TaskCoordination),
            t.user_messages == category_total(s.take(i as int), InjectionCategory::UserMessage),
        decreases s.len() - i,
    {
        proof {
            assert(s.take(i + 1).drop_last() =~= s.take(i as int));
            assert(s.take(i + 1).last() == s[i as int]);
            lemma_category_total_monotone(s, injections[i as int].category, i + 1);
        }
        let x = injections[i].estimated_tokens;
        match injections[i].category {
            InjectionCategory::ClaudeMd => t.claude_md = t.claude_md + x,
            InjectionCategory::MentionedFile => t.mentioned_file = t.mentioned_file + x,
            InjectionCategory::ToolOutput => t.tool_output = t.tool_output + x,
            InjectionCategory::ThinkingText => t.thinking_text = t.thinking_text + x,
            InjectionCategory::TaskCoordination => t.task_coordination = t.task_coordination + x,
            InjectionCategory::UserMessage => t.user_messages = t.user_messages + x,
        }
        i = i + 1;
    }
    assert(s.take(i as int) =~= s);
    t
}

/// Number of new injections per category in one turn.
#[derive(Debug, Clone, Copy, PartialEq, Eq, Structural)]
pub struct CountsByCategory {
    pub claude_md: usize,
    pub mentioned_file: usize,
    pub tool_output: usize,
    pub thinking_text: usize,
    pub task_coordination: usize,
    pub user_messages: usize,
}

/// Sum of the counts of all categories.
pub open spec fn counts_total(c: CountsByCategory) -> int {
    c.claude_md + c.mentioned_file + c.tool_output + c.thinking_text + c.task_coordination + c.user_messages
}

/// Sum of the estimated tokens of all injections.
pub open spec fn tokens_total(injs: Seq<ContextInjection>) -> int
    decreases injs.len(),
{
    if injs.len() == 0 {
        0
    } else {
        tokens_total(injs.drop_last()) + injs.last().estimated_tokens
    }
}

proof fn lemma_category_within_total(injs: Seq<ContextInjection>, c: InjectionCategory)
    ensures
        0 <= category_total(injs, c) <= tokens_total(injs),
    decreases injs.len(),
{
    if injs.len() > 0 {
        lemma_category_within_total(injs.drop_last(), c);
    }
}

proof fn lemma_tokens_total_monotone(injs: Seq<ContextInjection>, i: int)
    requires
        0 <= i <= injs.len(),
    ensures
        0 <= tokens_total(injs.take(i)) <= tokens_total(injs),
    decreases injs.len() - i,
{
    if i < injs.len() {
        lemma_tokens_total_monotone(injs, i + 1);
        assert(injs.take(i + 1).drop_last() =~= injs.take(i));
    } else {
        assert(injs.take(i) =~= injs);
    }
    lemma_category_within_total(injs.take(i), InjectionCategory::ClaudeMd);
}

/// Context statistics of one turn: how many injections it added and their
/// tokens, per category and in all, with the running totals.
#[derive(Debug)]
pub struct TurnContextStats {
    pub new_count: u32,
    pub new_tokens: u64,
    pub new_tokens_by_category: TokensByCategory,
    pub counts_by_category: CountsByCategory,
    pub cumulative_estimated_tokens: u64,
    pub cumulative_tokens_by_category: TokensByCategory,
}

/// The statistics of a turn that added injections (`None` for a turn that
/// added none): the number added (saturated at `u32::MAX`), their tokens
/// in all and per category, and the running totals passed in.
pub fn turn_context_stats(
    counts: CountsByCategory,
    new_injections: &[ContextInjection],
    cumulative_estimated_tokens: u64,
    cumulative_tokens_by_category: TokensByCategory,
) -> (r: Option<TurnContextStats>)
    requires
        counts_total(counts) <= usize::MAX,
        tokens_total(new_injections@) <= u64::MAX,
    ensures
        r is None <==> counts_total(counts) == 0,
        r matches Some(t) ==> {
            &&& t.new_count == if counts_total(counts) <= u32::MAX {
                counts_total(counts)
            } else {
                u32::MAX as int
            }
            &&& t.new_tokens == tokens_total(new_injections@)
            &&& t.new_tokens_by_category.claude_md == category_total(new_injections@, InjectionCategory::ClaudeMd)
            &&& t.new_tokens_by_category.mentioned_file == category_total(new_injections@, InjectionCategory::MentionedFile)
            &&& t.new_tokens_by_category.tool_output == category_total(new_injections@, InjectionCategory::ToolOutput)
            &&& t.new_tokens_by_category.thinking_text == category_total(new_injections@, InjectionCategory::ThinkingText)
            &&& t.new_tokens_by_category.task_coordination == category_total(
                new_injections@,
                InjectionCategory::TaskCoordination,
            )
            &&& t.new_tokens_by_category.user_messages == category_total(new_injections@, InjectionCategory::UserMessage)
            &&& t.counts_by_category == counts
            &&& t.cumulative_estimated_tokens == cumulative_estimated_tokens
            &&& t.cumulative_tokens_by_category == cumulative_tokens_by_category
        },
{
    let total: usize = counts.claude_md + counts.mentioned_file + counts.tool_output + counts.thinking_text
        + counts.task_coordination + counts.user_messages;
    if total == 0 {
        return None;
    }
    let ghost s = new_injections@;
    let mut sum: u64 = 0;
    let mut i: usize = 0;
    assert(s.take(0) =~= Seq::<ContextInjection>::empty());
    while i < new_injections.len()
        invariant
            s == new_injections@,
            i <= s.len(),
            tokens_total(s) <= u64::MAX,
            sum == tokens_total(s.take(i as int)),
        decreases s.len() - i,
    {
        proof {
            assert(s.take(i + 1).drop_last() =~= s.take(i as int));
            assert(s.take(i + 1).last() == s[i as int]);
            lemma_tokens_total_monotone(s, i + 1);
        }
        sum = sum + new_injections[i].estimated_tokens;
        i = i + 1;
    }
    assert(s.take(i as int) =~= s);
    proof {
        lemma_category_within_total(s, InjectionCategory::ClaudeMd);
        lemma_category_within_total(s, InjectionCategory::MentionedFile);
        lemma_category_within_total(s, InjectionCategory::ToolOutput);
        lemma_category_within_total(s, InjectionCategory::ThinkingText);
        lemma_category_within_total(s, InjectionCategory::TaskCoordination);
        lemma_category_within_total(s, InjectionCategory::UserMessage);
    }
    let by_category = compute_new_tokens_by_category(new_injections);
    let new_count: u32 = if total <= 0xffff_ffffusize {
        total as u32
    } else {
        u32::MAX
    };
    Some(
        TurnContextStats {
            new_count,
            new_tokens: sum,
            new_tokens_by_category: by_category,
            counts_by_category: counts,
            cumulative_estimated_tokens,
            cumulative_tokens_by_category,
        },
    )
}

/// The output of the first execution in `es` of tool call `id`.
pub open spec fn first_exec_output(es: Seq<ToolExecution>, id: Seq<char>) -> Option<ToolOutput>
    decreases es.len(),
{
    if es.len() == 0 {
        None
    } else if es[0].tool_use_id@ == id {
        Some(es[0].output)
    } else {
        first_exec_output(es.drop_first(), id)
    }
}

/// The output of tool call `id`: from the first AI chunk of `cs` that ran
/// it, its first execution with that id.
pub open spec fn tool_output_in(cs: Seq<Chunk>, id: Seq<char>) -> Option<ToolOutput>
    decreases cs.len(),
{
    if cs.len() == 0 {
        None
    } else {
        match cs[0] {
            Chunk::Ai(ai) => match first_exec_output(ai.tool_executions@, id) {
                Some(o) => Some(o),
                None => tool_output_in(cs.drop_first(), id),
            },
            _ => tool_output_in(cs.drop_first(), id),
        }
    }
}

fn find_exec_output<'a>(es: &'a [ToolExecution], id: &str) -> (r: Option<&'a ToolOutput>)
    ensures
        match r {
            Some(o) => first_exec_output(es@, id@) == Some(*o),
            None => first_exec_output(es@, id@) is None,
        },
{
    let mut j: usize = 0;
    assert(es@.skip(0) =~= es@);
    while j < es.len()
        invariant
            j <= es@.len(),
            first_exec_output(es@.skip(j as int), id@) == first_exec_output(es@, id@),
        decreases es@.len() - j,
    {
        assert(es@.skip(j as int)[0] == es@[j as int]);
        assert(es@.skip(j as int).drop_first() =~= es@.skip(j + 1));
        if crate::text::str_eq(es[j].tool_use_id.as_str(), id) {
            return Some(&es[j].output);
        }
        j = j + 1;
    }
    None
}

/// The output of tool call `tool_use_id` in a session's chunks (see
/// [`tool_output_in`]); `None` when no AI chunk ran it.
pub fn find_tool_output<'a>(chunks: &'a [Chunk], tool_use_id: &str) -> (r: Option<&'a ToolOutput>)
    ensures
        match r {
            Some(o) => tool_output_in(chunks@, tool_use_id@) == Some(*o),
            None => tool_output_in(chunks@, tool_use_id@) is None,
        },
{
    let mut i: usize = 0;
    assert(chunks@.skip(0) =~= chunks@);
    while i < chunks.len()
        invariant
            i <= chunks@.len(),
            tool_output_in(chunks@.skip(i as int), tool_use_id@) == tool_output_in(chunks@, tool_use_id@),
        decreases chunks@.len() - i,
    {
        assert(chunks@.skip(i as int)[0] == chunks@[i as int]);
        assert(chunks@.skip(i as int).drop_first() =~= chunks@.skip(i + 1));
        match &chunks[i] {
            Chunk::Ai(ai) => {
                match find_exec_output(ai.tool_executions.as_slice(), tool_use_id) {
                    Some(o) => {
                        return Some(o);
                    },
                    None => {},
                }
            },
            _ => {},
        }
        i = i + 1;
    }
    None
}

} // verus!
