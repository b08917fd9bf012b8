//! Lookups in a session's parsed messages: the image block a client asks
//! for by its block id, and the text shown for a message.

use vstd::prelude::*;

use crate::chunk::{ContentBlock, MessageContent};
use crate::text::{chars_of, opt_view, slice_range, str_eq, string_from_chars, to_owned_string};

verus! {

/// Role of a parsed message.
#[derive(Debug, Clone, Copy, PartialEq, Eq, Structural)]
pub enum MessageType {
    User,
    Assistant,
    System,
    Other,
}

/// One parsed message of a session file: its id, the id of the message it
/// answers, the subagent id it carries, its role, its content and its time
/// (milliseconds since the Unix epoch).
#[derive(Debug)]
pub struct ParsedMessage {
    pub uuid: String,
    pub parent_uuid: Option<String>,
    pub agent_id: Option<String>,
    pub message_type: MessageType,
    pub content: MessageContent,
    pub timestamp_ms: i64,
}

/// `c` is an ASCII decimal digit.
pub open spec fn is_digit(c: char) -> bool {
    '0' <= c && c <= '9'
}

/// Value of a run of decimal digits.
pub open spec fn digits_value(s: Seq<char>) -> int
    decreases s.len(),
{
    if s.len() == 0 {
        0
    } else {
        digits_value(s.drop_last()) * 10 + (s.last() as int - 48)
    }
}

/// `s` without one leading `+`.
pub open spec fn without_plus(s: Seq<char>) -> Seq<char> {
    if s.len() > 0 && s[0] == '+' {
        s.drop_first()
    } else {
        s
    }
}

/// Every character of `d` is a decimal digit.
pub open spec fn all_digits(d: Seq<char>) -> bool {
    forall|i: int| 0 <= i < d.len() ==> is_digit(#[trigger] d[i])
}

/// What `str::parse::<usize>` accepts: an optional `+` and at least one
/// digit, of a value that fits.
pub open spec fn parsed_usize(s: Seq<char>) -> Option<usize> {
    let d = without_plus(s);
    if d.len() > 0 && all_digits(d) && digits_value(d) <= usize::MAX {
        Some(digits_value(d) as usize)
    } else {
        None
    }
}

proof fn lemma_digits_value_grows(d: Seq<char>, i: int, j: int)
    requires
        0 <= i <= j <= d.len(),
        forall|t: int| 0 <= t < d.len() ==> is_digit(#[trigger] d[t]),
    ensures
        0 <= digits_value(d.take(i)) <= digits_value(d.take(j)),
    decreases j - i,
{
    if i < j {
        lemma_digits_value_grows(d, i, j - 1);
        assert(d.take(j).drop_last() =~= d.take(j - 1));
        assert(is_digit(d[j - 1]));
    } else {
        lemma_digits_value_nonneg(d.take(i));
    }
}

proof fn lemma_digits_value_nonneg(d: Seq<char>)
    requires
        forall|t: int| 0 <= t < d.len() ==> is_digit(#[trigger] d[t]),
    ensures
        0 <= digits_value(d),
    decreases d.len(),
{
    if d.len() > 0 {
        assert(is_digit(d.last()));
        lemma_digits_value_nonneg(d.drop_last());
    }
}

/// Parses a decimal `usize` as `str::parse` does.
pub fn parse_usize(s: &str) -> (r: Option<usize>)
    ensures
        r == parsed_usize(s@),
{
    let cs = chars_of(s);
    let start: usize = if cs.len() > 0 && cs[0] == '+' {
        1
    } else {
        0
    };
    let ghost d = without_plus(s@);
    assert(d =~= cs@.skip(start as int));
    if start == cs.len() {
        return None;
    }
    let mut acc: usize = 0;
    let mut i: usize = start;
    while i < cs.len()
        invariant
            start <= i <= cs@.len(),
            cs@ == s@,
            d == cs@.skip(start as int),
            d == without_plus(s@),
            forall|t: int| start <= t < i ==> is_digit(#[trigger] cs@[t]),
            acc as int == digits_value(d.take(i - start)),
        decreases cs@.len() - i,
    {
        let c = cs[i];
        if !('0' <= c && c <= '9') {
            proof {
                assert(d[i - start] == c);
                assert(!is_digit(d[i - start]));
                assert(!all_digits(d));
            }
            return None;
        }
        let digit: usize = (c as u32 - 48) as usize;
        proof {
            assert(d.take(i + 1 - start).drop_last() =~= d.take(i - start));
            assert(d.take(i + 1 - start).last() == c);
        }
        let next = match acc.checked_mul(10) {
            Some(m) => m.checked_add(digit),
            None => None,
        };
        match next {
            Some(v) => {
                acc = v;
            },
            None => {
                proof {
                    assert(digits_value(d.take(i + 1 - start)) == acc * 10 + digit);
                    assert(acc * 10 + digit > usize::MAX);
                    if all_digits(d) {
                        lemma_digits_value_grows(d, i + 1 - start, d.len() as int);
                        assert(d.take(d.len() as int) =~= d);
                    }
                }
                return None;
            },
        }
        i = i + 1;
    }
    proof {
        assert(d.take(i - start) =~= d);
        assert forall|t: int| 0 <= t < d.len() implies is_digit(#[trigger] d[t]) by {
            assert(d[t] == cs@[t + start]);
        }
        assert(all_digits(d));
    }
    Some(acc)
}

/// Index of the last `:` in `s`, or -1.
pub open spec fn last_colon(s: Seq<char>) -> int
    decreases s.len(),
{
    if s.len() == 0 {
        -1
    } else if s.last() == ':' {
        s.len() - 1
    } else {
        last_colon(s.drop_last())
    }
}

/// The chunk id and block index of a block id `<chunk uuid>:<index>`,
/// split at the last colon; `None` when there is no colon or the index is
/// not a decimal number.
pub open spec fn block_id_parts(s: Seq<char>) -> Option<(Seq<char>, usize)> {
    let p = last_colon(s);
    if p < 0 {
        None
    } else {
        match parsed_usize(s.skip(p + 1)) {
            Some(n) => Some((s.take(p), n)),
            None => None,
        }
    }
}

/// Splits a block id into its chunk uuid and block index.
pub fn parse_block_id(block_id: &str) -> (r: Option<(String, usize)>)
    ensures
        match r {
            Some((u, n)) => block_id_parts(block_id@) == Some((u@, n)),
            None => block_id_parts(block_id@) is None,
        },
{
    let cs = chars_of(block_id);
    let mut k: usize = cs.len();
    assert(cs@.take(k as int) =~= cs@);
    while k > 0 && cs[k - 1] != ':'
        invariant
            k <= cs@.len(),
            cs@ == block_id@,
            last_colon(cs@.take(k as int)) == last_colon(cs@),
        decreases k,
    {
        assert(cs@.take(k as int).drop_last() =~= cs@.take(k - 1));
        k = k - 1;
    }
    proof {
        assert(cs@.take(cs@.len() as int) =~= cs@);
    }
    if k == 0 {
        assert(last_colon(cs@.take(0)) == -1);
        return None;
    }
    assert(last_colon(cs@.take(k as int)) == k - 1);
    let tail = string_from_chars(&slice_range(&cs, k, cs.len()));
    assert(tail@ =~= block_id@.skip(k as int));
    match parse_usize(tail.as_str()) {
        Some(n) => {
            let head = string_from_chars(&slice_range(&cs, 0, k - 1));
            assert(head@ =~= block_id@.take(k - 1));
            Some((head, n))
        },
        None => None,
    }
}

/// Position of the first message with id `uuid`.
pub open spec fn first_with_uuid(ms: Seq<ParsedMessage>, uuid: Seq<char>) -> Option<int>
    decreases ms.len(),
{
    if ms.len() == 0 {
        None
    } else if ms[0].uuid@ == uuid {
        Some(0)
    } else {
        match first_with_uuid(ms.drop_first(), uuid) {
            Some(i) => Some(i + 1),
            None => None,
        }
    }
}

/// The (data, media type) of image block `index` of the first message with
/// id `uuid`, when that block exists and is an image.
pub open spec fn image_block(ms: Seq<ParsedMessage>, uuid: Seq<char>, index: int) -> Option<(Seq<char>, Seq<char>)> {
    match first_with_uuid(ms, uuid) {
        None => None,
        Some(i) => match ms[i].content {
            MessageContent::Blocks(bs) => if 0 <= index < bs@.len() {
                match bs@[index] {
                    ContentBlock::Image { source } => Some((source.data@, source.media_type@)),
                    _ => None,
                }
            } else {
                None
            },
            _ => None,
        },
    }
}

/// The base64 data and media type of the image a client asked for.
pub fn find_image_block_in_messages(messages: &[ParsedMessage], chunk_uuid: &str, block_index: usize) -> (r: Option<
    (String, String),
>)
    ensures
        match r {
            Some((d, m)) => image_block(messages@, chunk_uuid@, block_index as int) == Some((d@, m@)),
            None => image_block(messages@, chunk_uuid@, block_index as int) is None,
        },
{
    let mut i: usize = 0;
    while i < messages.len()
        invariant
            i <= messages@.len(),
            forall|t: int| 0 <= t < i ==> (#[trigger] messages@[t]).uuid@ != chunk_uuid@,
        decreases messages@.len() - i,
    {
        if str_eq(messages[i].uuid.as_str(), chunk_uuid) {
            proof {
                lemma_first_with_uuid(messages@, chunk_uuid@, i as int);
            }
            return match &messages[i].content {
                MessageContent::Blocks(bs) => {
                    if block_index < bs.len() {
                        match &bs[block_index] {
                            ContentBlock::Image { source } => Some(
                                (String::from_str(source.data.as_str()), String::from_str(source.media_type.as_str())),
                            ),
                            _ => None,
                        }
                    } else {
                        None
                    }
                },
                _ => None,
            };
        }
        i = i + 1;
    }
    proof {
        lemma_first_with_uuid_none(messages@, chunk_uuid@);
    }
    None
}

proof fn lemma_first_with_uuid(ms: Seq<ParsedMessage>, uuid: Seq<char>, i: int)
    requires
        0 <= i < ms.len(),
        ms[i].uuid@ == uuid,
        forall|t: int| 0 <= t < i ==> (#[trigger] ms[t]).uuid@ != uuid,
    ensures
        first_with_uuid(ms, uuid) == Some(i),
    decreases i,
{
    if i > 0 {
        assert forall|t: int| 0 <= t < i - 1 implies (#[trigger] ms.drop_first()[t]).uuid@ != uuid by {
            assert(ms.drop_first()[t] == ms[t + 1]);
        }
        lemma_first_with_uuid(ms.drop_first(), uuid, i - 1);
    }
}

proof fn lemma_first_with_uuid_none(ms: Seq<ParsedMessage>, uuid: Seq<char>)
    requires
        forall|t: int| 0 <= t < ms.len() ==> (#[trigger] ms[t]).uuid@ != uuid,
    ensures
        first_with_uuid(ms, uuid) is None,
    decreases ms.len(),
{
    if ms.len() > 0 {
        assert forall|t: int| 0 <= t < ms.len() - 1 implies (#[trigger] ms.drop_first()[t]).uuid@ != uuid by {
            assert(ms.drop_first()[t] == ms[t + 1]);
        }
        lemma_first_with_uuid_none(ms.drop_first(), uuid);
    }
}

/// The text shown for a message: its plain text, or the text of its first
/// text block.
pub open spec fn content_text(c: MessageContent) -> Option<Seq<char>> {
    match c {
        MessageContent::Text(s) => Some(s@),
        MessageContent::Blocks(bs) => first_text_block(bs@),
    }
}

/// Text of the first text block of `bs`.
pub open spec fn first_text_block(bs: Seq<ContentBlock>) -> Option<Seq<char>>
    decreases bs.len(),
{
    if bs.len() == 0 {
        None
    } else {
        match bs[0] {
            ContentBlock::Text { text } => Some(text@),
            _ => first_text_block(bs.drop_first()),
        }
    }
}

/// The text of a message's content (see [`content_text`]).
pub fn extract_content_text(content: &MessageContent) -> (r: Option<&str>)
    ensures
        match r {
            Some(t) => content_text(*content) == Some(t@),
            None => content_text(*content) is None,
        },
{
    match content {
        MessageContent::Text(s) => Some(s.as_str()),
        MessageContent::Blocks(bs) => {
            let mut i: usize = 0;
            assert(bs@.skip(0) =~= bs@);
            while i < bs.len()
                invariant
                    i <= bs@.len(),
                    *content == MessageContent::Blocks(*bs),
                    first_text_block(bs@.skip(i as int)) == first_text_block(bs@),
                decreases bs@.len() - i,
            {
                assert(bs@.skip(i as int)[0] == bs@[i as int]);
                assert(bs@.skip(i as int).drop_first() =~= bs@.skip(i + 1));
                match &bs[i] {
                    ContentBlock::Text { text } => {
                        assert(first_text_block(bs@.skip(i as int)) == Some(text@));
                        return Some(text.as_str());
                    },
                    _ => {},
                }
                i = i + 1;
            }
            None
        },
    }
}

/// Number of leading messages of a subagent file that its header is read from.
pub const SUBAGENT_HEADER_MESSAGES: usize = 10;

/// Number of characters kept of a subagent's description hint.
pub const DESCRIPTION_HINT_CHARS: usize = 200;

/// The subagent header fields read from the first messages of its file.
#[derive(Debug)]
pub struct SubagentHeader {
    pub session_id: String,
    pub parent_session_id: Option<String>,
    pub description_hint: Option<String>,
    pub spawn_ts_ms: i64,
    pub end_ts_ms: Option<i64>,
}

/// `stem` without a leading `agent-`.
pub open spec fn strip_agent_prefix(stem: Seq<char>) -> Seq<char> {
    if stem.len() >= 6 && stem.take(6) == seq!['a', 'g', 'e', 'n', 't', '-'] {
        stem.skip(6)
    } else {
        stem
    }
}

/// The first messages of a file that the header is read from.
pub open spec fn header_window(ms: Seq<ParsedMessage>) -> Seq<ParsedMessage> {
    if ms.len() <= SUBAGENT_HEADER_MESSAGES {
        ms
    } else {
        ms.take(SUBAGENT_HEADER_MESSAGES as int)
    }
}

/// The parent id of the earliest message of `ms` that names one.
pub open spec fn first_parent(ms: Seq<ParsedMessage>) -> Option<Seq<char>>
    decreases ms.len(),
{
    if ms.len() == 0 {
        None
    } else {
        match first_parent(ms.drop_last()) {
            Some(p) => Some(p),
            None => match ms.last().parent_uuid {
                Some(p) => Some(p@),
                None => None,
            },
        }
    }
}

/// The agent id of the latest message of `ms` that names one.
pub open spec fn last_agent_id(ms: Seq<ParsedMessage>) -> Option<Seq<char>>
    decreases ms.len(),
{
    if ms.len() == 0 {
        None
    } else {
        match ms.last().agent_id {
            Some(a) => Some(a@),
            None => last_agent_id(ms.drop_last()),
        }
    }
}

/// A user message whose text is exactly `Warmup`: the file is a warm-up
/// run, not a subagent.
pub open spec fn is_warmup(m: ParsedMessage) -> bool {
    m.message_type == MessageType::User && content_text(m.content) == Some(seq!['W', 'a', 'r', 'm', 'u', 'p'])
}

/// The first `n` characters of `t`.
pub open spec fn first_chars(t: Seq<char>, n: nat) -> Seq<char> {
    if t.len() <= n {
        t
    } else {
        t.take(n as int)
    }
}

/// The description hint: the first non-empty text of a user message of
/// `ms`, cut to its first characters.
pub open spec fn first_hint(ms: Seq<ParsedMessage>) -> Option<Seq<char>>
    decreases ms.len(),
{
    if ms.len() == 0 {
        None
    } else {
        match first_hint(ms.drop_last()) {
            Some(h) => Some(h),
            None => {
                let m = ms.last();
                if m.message_type == MessageType::User {
                    match content_text(m.content) {
                        Some(t) => if t.len() > 0 {
                            Some(first_chars(t, DESCRIPTION_HINT_CHARS as nat))
                        } else {
                            None
                        },
                        None => None,
                    }
                } else {
                    None
                }
            },
        }
    }
}

/// Reads a subagent's header from the first messages of its file: its
/// session id (the last agent id named there, else the file stem without
/// `agent-`), the parent session (the first parent id named), a description
/// hint (the first non-empty user text, cut to 200 characters), and its
/// first and last timestamps. `None` when there is no message or one of the
/// first messages is a user `Warmup` message.
pub fn subagent_header(file_stem: &str, messages: &[ParsedMessage]) -> (r: Option<SubagentHeader>)
    ensures
        match r {
            None => messages@.len() == 0 || exists|j: int|
                0 <= j < header_window(messages@).len() && is_warmup(#[trigger] header_window(messages@)[j]),
            Some(h) => {
                &&& messages@.len() > 0
                &&& forall|j: int|
                    0 <= j < header_window(messages@).len() ==> !is_warmup(#[trigger] header_window(messages@)[j])
                &&& h.session_id@ == match last_agent_id(header_window(messages@)) {
                    Some(a) => a,
                    None => strip_agent_prefix(file_stem@),
                }
                &&& opt_view(h.parent_session_id) == first_parent(header_window(messages@))
                &&& opt_view(h.description_hint) == first_hint(header_window(messages@))
                &&& h.spawn_ts_ms == messages@[0].timestamp_ms
                &&& h.end_ts_ms == if messages@.last().timestamp_ms > messages@[0].timestamp_ms {
                    Some(messages@.last().timestamp_ms)
                } else {
                    None
                }
            },
        },
{
    if messages.len() == 0 {
        return None;
    }
    let n: usize = if messages.len() <= SUBAGENT_HEADER_MESSAGES {
        messages.len()
    } else {
        SUBAGENT_HEADER_MESSAGES
    };
    let ghost w = header_window(messages@);
    assert(w =~= messages@.take(n as int));
    let mut parent: Option<String> = None;
    let mut agent: Option<String> = None;
    let mut hint: Option<String> = None;
    let mut i: usize = 0;
    while i < n
        invariant
            i <= n <= messages@.len(),
            w == messages@.take(n as int),
            w == header_window(messages@),
            opt_view(parent) == first_parent(w.take(i as int)),
            opt_view(agent) == last_agent_id(w.take(i as int)),
            opt_view(hint) == first_hint(w.take(i as int)),
            forall|j: int| 0 <= j < i ==> !is_warmup(#[trigger] w[j]),
        decreases n - i,
    {
        let m = &messages[i];
        proof {
            assert(w.take(i + 1).drop_last() =~= w.take(i as int));
            assert(w.take(i + 1).last() == *m);
        }
        if parent.is_none() {
            match &m.parent_uuid {
                Some(p) => {
                    parent = Some(to_owned_string(p.as_str()));
                },
                None => {},
            }
        }
        match &m.agent_id {
            Some(a) => {
                agent = Some(to_owned_string(a.as_str()));
            },
            None => {},
        }
        if m.message_type == MessageType::User {
            match extract_content_text(&m.content) {
                Some(t) => {
                    proof {
                        reveal_strlit("Warmup");
                        assert("Warmup"@ =~= seq!['W', 'a', 'r', 'm', 'u', 'p']);
                        assert(w[i as int] == *m);
                        assert(content_text(m.content) == Some(t@));
                    }
                    if str_eq(t, "Warmup") {
                        proof {
                            assert(is_warmup(header_window(messages@)[i as int]));
                        }
                        return None;
                    }
                    if hint.is_none() {
                        let cs = chars_of(t);
                        if cs.len() > 0 {
                            let keep: usize = if cs.len() <= DESCRIPTION_HINT_CHARS {
                                cs.len()
                            } else {
                                DESCRIPTION_HINT_CHARS
                            };
                            let cut = string_from_chars(&slice_range(&cs, 0, keep));
                            proof {
                                assert(cut@ =~= first_chars(t@, DESCRIPTION_HINT_CHARS as nat));
                            }
                            hint = Some(cut);
                        }
                    }
                    proof {
                        assert(!is_warmup(w[i as int]));
                    }
                },
                None => {},
            }
        }
        i = i + 1;
    }
    proof {
        assert(w.take(n as int) =~= w);
    }
    let stem_chars = chars_of(file_stem);
    let session_id = match agent {
        Some(a) => a,
        None => {
            if stem_chars.len() >= 6 && stem_chars[0] == 'a' && stem_chars[1] == 'g' && stem_chars[2] == 'e'
                && stem_chars[3] == 'n' && stem_chars[4] == 't' && stem_chars[5] == '-' {
                let rest = string_from_chars(&slice_range(&stem_chars, 6, stem_chars.len()));
                proof {
                    assert(file_stem@.take(6) =~= seq!['a', 'g', 'e', 'n', 't', '-']);
                    assert(rest@ =~= file_stem@.skip(6));
                }
                rest
            } else {
                proof {
                    if file_stem@.len() >= 6 {
                        if file_stem@.take(6) == seq!['a', 'g', 'e', 'n', 't', '-'] {
                            assert(file_stem@.take(6)[0] == 'a');
                            assert(file_stem@.take(6)[1] == 'g');
                            assert(file_stem@.take(6)[2] == 'e');
                            assert(file_stem@.take(6)[3] == 'n');
                            assert(file_stem@.take(6)[4] == 't');
                            assert(file_stem@.take(6)[5] == '-');
                        }
                    }
                }
                to_owned_string(file_stem)
            }
        },
    };
    let first = messages[0].timestamp_ms;
    let last = messages[messages.len() - 1].timestamp_ms;
    Some(
        SubagentHeader {
            session_id,
            parent_session_id: parent,
            description_hint: hint,
            spawn_ts_ms: first,
            end_ts_ms: if last > first {
                Some(last)
            } else {
                None
            },
        },
    )
}

} // verus!
