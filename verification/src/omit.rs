//! Trimming of session chunks before they are sent to a client: image
//! data, assistant response text and tool output are replaced by empty
//! placeholders flagged as omitted, for the client to fetch on demand, and
//! subagent message lists are dropped.

use vstd::prelude::*;

use crate::chunk::{
    AiChunk, AssistantResponse, Chunk, ContentBlock, ImageSource, MessageContent, SubagentProcess, ToolExecution,
    ToolOutput, UserChunk,
};

verus! {

/// Which part of the chunks is trimmed.
#[derive(Debug, Clone, Copy, PartialEq, Eq, Structural)]
pub enum OmitKind {
    ImageData,
    ResponseContent,
    ToolOutput,
}

/// Number of UTF-8 bytes that encode `c`.
pub open spec fn utf8_width(c: char) -> nat {
    if (c as u32) < 0x80 {
        1
    } else if (c as u32) < 0x800 {
        2
    } else if (c as u32) < 0x10000 {
        3
    } else {
        4
    }
}

/// Number of UTF-8 bytes that encode `s`.
pub open spec fn utf8_len(s: Seq<char>) -> nat
    decreases s.len(),
{
    if s.len() == 0 {
        0
    } else {
        utf8_len(s.drop_last()) + utf8_width(s.last())
    }
}

/// std `str::len`: the length of `s` in bytes of its UTF-8 encoding.
#[verifier::external_body]
pub(crate) fn str_byte_len(s: &str) -> (r: usize)
    ensures
        r == utf8_len(s@),
{
    s.len()
}

/// Image payload `b` is `a` with its data removed and flagged as omitted.
pub open spec fn source_cleared(a: ImageSource, b: ImageSource) -> bool {
    b.kind == a.kind && b.media_type == a.media_type && b.data@ == Seq::<char>::empty() && b.data_omitted
}

/// Block `b` is `a` with image data removed.
pub open spec fn block_trimmed(a: ContentBlock, b: ContentBlock) -> bool {
    match a {
        ContentBlock::Image { source } => b matches ContentBlock::Image { source: s2 } && source_cleared(source, s2),
        _ => b == a,
    }
}

/// Content `b` is `a` with the data of every image block removed.
pub open spec fn content_images_trimmed(a: MessageContent, b: MessageContent) -> bool {
    match a {
        MessageContent::Blocks(bs) => b matches MessageContent::Blocks(cs) && cs@.len() == bs@.len() && forall|i: int|
            0 <= i < bs@.len() ==> block_trimmed(#[trigger] bs@[i], cs@[i]),
        _ => b == a,
    }
}

/// Response `b` is `a` trimmed of the part `k`.
pub open spec fn response_trimmed(k: OmitKind, a: AssistantResponse, b: AssistantResponse) -> bool {
    &&& b.uuid == a.uuid
    &&& b.usage == a.usage
    &&& match k {
        OmitKind::ImageData => content_images_trimmed(a.content, b.content) && b.content_omitted == a.content_omitted,
        OmitKind::ResponseContent => (b.content matches MessageContent::Text(t) && t@ == Seq::<char>::empty())
            && b.content_omitted,
        OmitKind::ToolOutput => b.content == a.content && b.content_omitted == a.content_omitted,
    }
}

/// Size in bytes of a tool output before trimming (none for a missing one).
pub open spec fn output_size(o: ToolOutput) -> Option<u64> {
    match o {
        ToolOutput::Text { text } => Some(utf8_len(text@) as u64),
        ToolOutput::Structured { json } => Some(utf8_len(json@) as u64),
        ToolOutput::Missing => None,
    }
}

/// Output `b` is `a` emptied, of the same kind: empty text, a `null`
/// structured value, or still missing.
pub open spec fn output_trimmed(a: ToolOutput, b: ToolOutput) -> bool {
    match a {
        ToolOutput::Text { .. } => b matches ToolOutput::Text { text } && text@ == Seq::<char>::empty(),
        ToolOutput::Structured { .. } => b matches ToolOutput::Structured { json } && json@ == "null"@,
        ToolOutput::Missing => b is Missing,
    }
}

/// Execution `b` is `a` trimmed of the part `k`.
pub open spec fn exec_trimmed(k: OmitKind, a: ToolExecution, b: ToolExecution) -> bool {
    if k == OmitKind::ToolOutput {
        &&& b.tool_use_id == a.tool_use_id
        &&& output_trimmed(a.output, b.output)
        &&& b.output_bytes == output_size(a.output)
        &&& b.output_omitted
    } else {
        b == a
    }
}

/// Chunks `b` are `a` trimmed of the part `k`, subagent chunks included.
pub open spec fn chunks_trimmed(k: OmitKind, a: Seq<Chunk>, b: Seq<Chunk>) -> bool
    decreases a, 1int,
{
    a.len() == b.len() && forall|i: int| 0 <= i < a.len() ==> chunk_trimmed(k, #[trigger] a[i], b[i])
}

/// Chunk `b` is `a` trimmed of the part `k`, subagent chunks included.
pub open spec fn chunk_trimmed(k: OmitKind, a: Chunk, b: Chunk) -> bool
    decreases a, 0int,
{
    match a {
        Chunk::Ai(x) => b matches Chunk::Ai(y) && {
            &&& y.chunk_id == x.chunk_id
            &&& y.responses@.len() == x.responses@.len()
            &&& forall|i: int| 0 <= i < x.responses@.len() ==> response_trimmed(k, #[trigger] x.responses@[i], y.responses@[i])
            &&& y.tool_executions@.len() == x.tool_executions@.len()
            &&& forall|i: int|
                0 <= i < x.tool_executions@.len() ==> exec_trimmed(k, #[trigger] x.tool_executions@[i], y.tool_executions@[i])
            &&& y.subagents@.len() == x.subagents@.len()
            &&& forall|j: int|
                0 <= j < x.subagents@.len() ==> {
                    &&& y.subagents@[j].session_id == (#[trigger] x.subagents@[j]).session_id
                    &&& y.subagents@[j].messages_omitted == x.subagents@[j].messages_omitted
                    &&& chunks_trimmed(k, x.subagents@[j].messages@, y.subagents@[j].messages@)
                }
        },
        Chunk::User(u) => b matches Chunk::User(v) && v.uuid == u.uuid && if k == OmitKind::ImageData {
            content_images_trimmed(u.content, v.content)
        } else {
            v.content == u.content
        },
        _ => b == a,
    }
}

fn trim_content_images(c: MessageContent) -> (r: MessageContent)
    ensures
        content_images_trimmed(c, r),
{
    match c {
        MessageContent::Blocks(bs) => {
            let ghost orig = bs@;
            let mut v = bs;
            let n = v.len();
            let mut out: Vec<ContentBlock> = Vec::new();
            let mut i: usize = 0;
            assert(orig.skip(0) =~= orig);
            while v.len() > 0
                invariant
                    n == orig.len(),
                    v@ == orig.skip(i as int),
                    i + v@.len() == orig.len(),
                    out@.len() == i,
                    forall|t: int| 0 <= t < i ==> block_trimmed(#[trigger] orig[t], out@[t]),
                decreases v@.len(),
            {
                let b = v.remove(0);
                assert(b == orig[i as int]);
                let nb = match b {
                    ContentBlock::Image { source } => ContentBlock::Image {
                        source: ImageSource {
                            kind: source.kind,
                            media_type: source.media_type,
                            data: String::new(),
                            data_omitted: true,
                        },
                    },
                    other => other,
                };
                out.push(nb);
                i = i + 1;
                assert(v@ =~= orig.skip(i as int));
            }
            MessageContent::Blocks(out)
        },
        other => other,
    }
}

fn trim_response(k: OmitKind, r: AssistantResponse) -> (t: AssistantResponse)
    ensures
        response_trimmed(k, r, t),
{
    match k {
        OmitKind::ImageData => {
            let AssistantResponse { uuid, content, usage, content_omitted } = r;
            AssistantResponse { uuid, content: trim_content_images(content), usage, content_omitted }
        },
        OmitKind::ResponseContent => {
            let AssistantResponse { uuid, content, usage, content_omitted } = r;
            AssistantResponse { uuid, content: MessageContent::Text(String::new()), usage, content_omitted: true }
        },
        OmitKind::ToolOutput => r,
    }
}

fn trim_exec(k: OmitKind, e: ToolExecution) -> (t: ToolExecution)
    ensures
        exec_trimmed(k, e, t),
{
    if k != OmitKind::ToolOutput {
        return e;
    }
    let ToolExecution { tool_use_id, output, output_bytes, output_omitted } = e;
    let (bytes, trimmed) = match output {
        ToolOutput::Text { text } => {
            let n = str_byte_len(text.as_str());
            (Some(n as u64), ToolOutput::Text { text: String::new() })
        },
        ToolOutput::Structured { json } => {
            let n = str_byte_len(json.as_str());
            (Some(n as u64), ToolOutput::Structured { json: String::from_str("null") })
        },
        ToolOutput::Missing => (None, ToolOutput::Missing),
    };
    ToolExecution { tool_use_id, output: trimmed, output_bytes: bytes, output_omitted: true }
}

fn trim_chunks(k: OmitKind, chunks: Vec<Chunk>) -> (r: Vec<Chunk>)
    ensures
        chunks_trimmed(k, chunks@, r@),
    decreases chunks@, 1int,
{
    let ghost orig = chunks@;
    let mut v = chunks;
    let n = v.len();
    let mut out: Vec<Chunk> = Vec::new();
    let mut i: usize = 0;
    assert(orig.skip(0) =~= orig);
    while v.len() > 0
        invariant
            orig == chunks@,
            n == orig.len(),
            v@ == orig.skip(i as int),
            i + v@.len() == orig.len(),
            out@.len() == i,
            forall|t: int| 0 <= t < i ==> chunk_trimmed(k, #[trigger] orig[t], out@[t]),
        decreases v@.len(),
    {
        let c = v.remove(0);
        assert(c == orig[i as int]);
        let nc = trim_chunk(k, c);
        out.push(nc);
        i = i + 1;
        assert(v@ =~= orig.skip(i as int));
    }
    out
}

fn trim_chunk(k: OmitKind, c: Chunk) -> (r: Chunk)
    ensures
        chunk_trimmed(k, c, r),
    decreases c, 0int,
{
    match c {
        Chunk::Ai(x) => {
            let ghost ox = x;
            let AiChunk { chunk_id, responses, tool_executions, subagents } = x;
            let ghost ors = responses@;
            let mut rs = responses;
            let nr = rs.len();
            let mut new_rs: Vec<AssistantResponse> = Vec::new();
            let mut i: usize = 0;
            assert(ors.skip(0) =~= ors);
            while rs.len() > 0
                invariant
                    nr == ors.len(),
                    rs@ == ors.skip(i as int),
                    i + rs@.len() == ors.len(),
                    new_rs@.len() == i,
                    forall|t: int| 0 <= t < i ==> response_trimmed(k, #[trigger] ors[t], new_rs@[t]),
                decreases rs@.len(),
            {
                let r = rs.remove(0);
                assert(r == ors[i as int]);
                new_rs.push(trim_response(k, r));
                i = i + 1;
                assert(rs@ =~= ors.skip(i as int));
            }
            let ghost oes = tool_executions@;
            let mut es = tool_executions;
            let ne = es.len();
            let mut new_es: Vec<ToolExecution> = Vec::new();
            let mut i: usize = 0;
            assert(oes.skip(0) =~= oes);
            while es.len() > 0
                invariant
                    ne == oes.len(),
                    es@ == oes.skip(i as int),
                    i + es@.len() == oes.len(),
                    new_es@.len() == i,
                    forall|t: int| 0 <= t < i ==> exec_trimmed(k, #[trigger] oes[t], new_es@[t]),
                decreases es@.len(),
            {
                let e = es.remove(0);
                assert(e == oes[i as int]);
                new_es.push(trim_exec(k, e));
                i = i + 1;
                assert(es@ =~= oes.skip(i as int));
            }
            let ghost oss = subagents@;
            let mut ss = subagents;
            let ns = ss.len();
            let mut new_ss: Vec<SubagentProcess> = Vec::new();
            let mut j: usize = 0;
            assert(oss.skip(0) =~= oss);
            while ss.len() > 0
                invariant
                    ns == oss.len(),
                    oss == ox.subagents@,
                    c == Chunk::Ai(ox),
                    ss@ == oss.skip(j as int),
                    j + ss@.len() == oss.len(),
                    new_ss@.len() == j,
                    forall|t: int|
                        0 <= t < j ==> {
                            &&& new_ss@[t].session_id == (#[trigger] oss[t]).session_id
                            &&& new_ss@[t].messages_omitted == oss[t].messages_omitted
                            &&& chunks_trimmed(k, oss[t].messages@, new_ss@[t].messages@)
                        },
                decreases ss@.len(),
            {
                let s = ss.remove(0);
                assert(s == oss[j as int]);
                let SubagentProcess { session_id, messages, messages_omitted } = s;
                proof {
                    assert(c->Ai_0 == ox);
                    assert(decreases_to!(c => c->Ai_0));
                    assert(decreases_to!(ox => ox.subagents));
                    assert(decreases_to!(ox.subagents => ox.subagents@));
                    assert(decreases_to!(ox.subagents@ => ox.subagents@[j as int]));
                    assert(decreases_to!(ox.subagents@[j as int] => ox.subagents@[j as int].messages));
                    assert(decreases_to!(ox.subagents@[j as int].messages => ox.subagents@[j as int].messages@));
                }
                let trimmed = trim_chunks(k, messages);
                new_ss.push(SubagentProcess { session_id, messages: trimmed, messages_omitted });
                j = j + 1;
                assert(ss@ =~= oss.skip(j as int));
            }
            Chunk::Ai(AiChunk { chunk_id, responses: new_rs, tool_executions: new_es, subagents: new_ss })
        },
        Chunk::User(u) => {
            if k == OmitKind::ImageData {
                let UserChunk { uuid, content } = u;
                Chunk::User(UserChunk { uuid, content: trim_content_images(content) })
            } else {
                Chunk::User(u)
            }
        },
        other => other,
    }
}

fn trim_in_place(k: OmitKind, chunks: &mut Vec<Chunk>)
    ensures
        chunks_trimmed(k, old(chunks)@, final(chunks)@),
{
    let mut taken: Vec<Chunk> = Vec::new();
    std::mem::swap(&mut taken, chunks);
    let trimmed = trim_chunks(k, taken);
    *chunks = trimmed;
}

/// Replaces the data of every image (in user messages, assistant responses
/// and subagent chunks) by an empty string flagged as omitted.
pub fn apply_image_omit(chunks: &mut Vec<Chunk>)
    ensures
        chunks_trimmed(OmitKind::ImageData, old(chunks)@, final(chunks)@),
{
    trim_in_place(OmitKind::ImageData, chunks);
}

/// Replaces the content of every assistant response (subagent chunks
/// included) by empty text flagged as omitted.
pub fn apply_response_content_omit(chunks: &mut Vec<Chunk>)
    ensures
        chunks_trimmed(OmitKind::ResponseContent, old(chunks)@, final(chunks)@),
{
    trim_in_place(OmitKind::ResponseContent, chunks);
}

/// Empties every tool output (subagent chunks included), keeping its kind,
/// recording its former size in bytes and flagging it as omitted.
pub fn apply_tool_output_omit(chunks: &mut Vec<Chunk>)
    ensures
        chunks_trimmed(OmitKind::ToolOutput, old(chunks)@, final(chunks)@),
{
    trim_in_place(OmitKind::ToolOutput, chunks);
}

/// Chunk `b` is `a` with the message lists of its subagents dropped and
/// flagged as omitted (when `a` is an AI chunk).
pub open spec fn chunk_subagents_dropped(a: Chunk, b: Chunk) -> bool {
    match a {
        Chunk::Ai(x) => b matches Chunk::Ai(y) && {
            &&& y.chunk_id == x.chunk_id
            &&& y.responses == x.responses
            &&& y.tool_executions == x.tool_executions
            &&& y.subagents@.len() == x.subagents@.len()
            &&& forall|j: int|
                0 <= j < x.subagents@.len() ==> {
                    &&& y.subagents@[j].session_id == (#[trigger] x.subagents@[j]).session_id
                    &&& y.subagents@[j].messages@.len() == 0
                    &&& y.subagents@[j].messages_omitted
                }
        },
        _ => b == a,
    }
}

/// Chunks `b` are `a` with the message lists of the subagents of every
/// top-level AI chunk dropped and flagged as omitted.
pub open spec fn subagents_dropped(a: Seq<Chunk>, b: Seq<Chunk>) -> bool {
    a.len() == b.len() && forall|i: int| 0 <= i < a.len() ==> chunk_subagents_dropped(#[trigger] a[i], b[i])
}

fn drop_subagent_messages(chunks: &mut Vec<Chunk>)
    ensures
        subagents_dropped(old(chunks)@, final(chunks)@),
{
    let mut taken: Vec<Chunk> = Vec::new();
    std::mem::swap(&mut taken, chunks);
    let ghost orig = taken@;
    let mut v = taken;
    let n = v.len();
    let mut out: Vec<Chunk> = Vec::new();
    let mut i: usize = 0;
    assert(orig.skip(0) =~= orig);
    while v.len() > 0
        invariant
            n == orig.len(),
            v@ == orig.skip(i as int),
            i + v@.len() == orig.len(),
            out@.len() == i,
            forall|t: int| 0 <= t < i ==> chunk_subagents_dropped(#[trigger] orig[t], out@[t]),
        decreases v@.len(),
    {
        let c = v.remove(0);
        assert(c == orig[i as int]);
        let nc = match c {
            Chunk::Ai(x) => {
                let AiChunk { chunk_id, responses, tool_executions, subagents } = x;
                let ghost oss = subagents@;
                let mut ss = subagents;
                let ns = ss.len();
                let mut new_ss: Vec<SubagentProcess> = Vec::new();
                let mut j: usize = 0;
                assert(oss.skip(0) =~= oss);
                while ss.len() > 0
                    invariant
                        ns == oss.len(),
                        ss@ == oss.skip(j as int),
                        j + ss@.len() == oss.len(),
                        new_ss@.len() == j,
                        forall|t: int|
                            0 <= t < j ==> {
                                &&& new_ss@[t].session_id == (#[trigger] oss[t]).session_id
                                &&& new_ss@[t].messages@.len() == 0
                                &&& new_ss@[t].messages_omitted
                            },
                    decreases ss@.len(),
                {
                    let s = ss.remove(0);
                    assert(s == oss[j as int]);
                    let SubagentProcess { session_id, messages, messages_omitted } = s;
                    new_ss.push(SubagentProcess { session_id, messages: Vec::new(), messages_omitted: true });
                    j = j + 1;
                    assert(ss@ =~= oss.skip(j as int));
                }
                Chunk::Ai(AiChunk { chunk_id, responses, tool_executions, subagents: new_ss })
            },
            other => other,
        };
        assert(chunk_subagents_dropped(orig[i as int], nc));
        out.push(nc);
        i = i + 1;
        assert(v@ =~= orig.skip(i as int));
    }
    *chunks = out;
}

/// The trimming applied before a session is shown: image data, response
/// content and tool output are trimmed in turn, then the subagent message
/// lists of the top-level AI chunks are dropped.
pub fn apply_display_omissions(chunks: &mut Vec<Chunk>)
    ensures
        exists|m1: Seq<Chunk>, m2: Seq<Chunk>, m3: Seq<Chunk>|
            chunks_trimmed(OmitKind::ImageData, old(chunks)@, m1) && chunks_trimmed(OmitKind::ResponseContent, m1, m2)
                && chunks_trimmed(OmitKind::ToolOutput, m2, m3) && subagents_dropped(m3, final(chunks)@),
{
    let ghost a0 = chunks@;
    apply_image_omit(chunks);
    let ghost a1 = chunks@;
    apply_response_content_omit(chunks);
    let ghost a2 = chunks@;
    apply_tool_output_omit(chunks);
    let ghost a3 = chunks@;
    drop_subagent_messages(chunks);
    assert(chunks_trimmed(OmitKind::ImageData, a0, a1) && chunks_trimmed(OmitKind::ResponseContent, a1, a2)
        && chunks_trimmed(OmitKind::ToolOutput, a2, a3) && subagents_dropped(a3, chunks@));
}

/// The trimming applied before a session is exported: image data is
/// trimmed and the subagent message lists dropped; response content and
/// tool output, which the exporters use, are kept.
pub fn apply_export_omissions(chunks: &mut Vec<Chunk>)
    ensures
        exists|m1: Seq<Chunk>|
            chunks_trimmed(OmitKind::ImageData, old(chunks)@, m1) && subagents_dropped(m1, final(chunks)@),
{
    let ghost a0 = chunks@;
    apply_image_omit(chunks);
    let ghost a1 = chunks@;
    drop_subagent_messages(chunks);
    assert(chunks_trimmed(OmitKind::ImageData, a0, a1) && subagents_dropped(a1, chunks@));
}

} // verus!
