//! The message parser: turns one decoded log line into a typed message or a
//! metadata fragment.
//!
//! Lines of type `file-history-snapshot` or `queue-operation` are dropped;
//! `user` maps to `User`; `assistant` maps to `ToolUse` when its content holds
//! a tool-use block, else `Assistant`; `progress` maps to `Progress` with the
//! fixed content `[progress]`; anything else maps to `Other` with content
//! `[<type>]`. A message whose extracted content is empty or exactly
//! `[command]` is discarded entirely.

use vstd::prelude::*;

use crate::decode::{
    decode_line, line_decode, parse_rfc3339_ms, rfc3339_ms, BlockView, ContentView, LineView,
    RawBlock, RawContent, RawLine, RawUsage,
};
use crate::strutil::{
    contains_seq, contains_str, last_index_of, rfind_char, str_eq, trim, trim_spec,
};

verus! {

/// The kind of a parsed message.
#[derive(Debug, Clone, Copy, PartialEq, Eq, Structural)]
pub enum MessageType {
    User,
    Assistant,
    Progress,
    ToolUse,
    Other,
}

/// One parsed message of a session, immutable once produced.
#[derive(Debug)]
pub struct SessionMessage {
    pub msg_type: MessageType,
    /// Timestamp in milliseconds since the Unix epoch.
    pub timestamp_ms: i64,
    pub content: String,
    pub tokens_in: Option<u64>,
    pub tokens_out: Option<u64>,
}

/// Mathematical view of a message.
pub struct MsgView {
    pub msg_type: MessageType,
    pub timestamp_ms: i64,
    pub content: Seq<char>,
    pub tokens_in: Option<u64>,
    pub tokens_out: Option<u64>,
}

impl View for SessionMessage {
    type V = MsgView;

    open spec fn view(&self) -> MsgView {
        MsgView {
            msg_type: self.msg_type,
            timestamp_ms: self.timestamp_ms,
            content: self.content@,
            tokens_in: self.tokens_in,
            tokens_out: self.tokens_out,
        }
    }
}

impl DeepView for SessionMessage {
    type V = MsgView;

    open spec fn deep_view(&self) -> MsgView {
        self.view()
    }
}

impl SessionMessage {
    /// A copy equal to `self`.
    pub fn duplicate(&self) -> (r: SessionMessage)
        ensures
            r@ == self@,
    {
        SessionMessage {
            msg_type: self.msg_type,
            timestamp_ms: self.timestamp_ms,
            content: self.content.clone(),
            tokens_in: self.tokens_in,
            tokens_out: self.tokens_out,
        }
    }
}

/// Metadata carried by a single log line.
#[derive(Debug, Clone)]
pub struct SessionMeta {
    pub git_branch: Option<String>,
    pub cwd: Option<String>,
    pub slug: Option<String>,
    pub summary: Option<String>,
}

/// Mathematical view of a metadata fragment.
pub struct MetaView {
    pub git_branch: Option<Seq<char>>,
    pub cwd: Option<Seq<char>>,
    pub slug: Option<Seq<char>>,
    pub summary: Option<Seq<char>>,
}

impl View for SessionMeta {
    type V = MetaView;

    open spec fn view(&self) -> MetaView {
        MetaView {
            git_branch: self.git_branch.deep_view(),
            cwd: self.cwd.deep_view(),
            slug: self.slug.deep_view(),
            summary: self.summary.deep_view(),
        }
    }
}

impl DeepView for SessionMeta {
    type V = MetaView;

    open spec fn deep_view(&self) -> MetaView {
        self.view()
    }
}

// ----- content extraction -----

/// Extraction from a string content value: trim; for tag-wrapped text return
/// the trailing text after the last `>` when non-empty, else collapse
/// command-marker strings to `[command]`, else the trimmed string itself.
pub open spec fn spec_extract_string(s: Seq<char>) -> Seq<char> {
    let t = trim_spec(s);
    if t.len() > 0 && t[0] == '<' && crate::strutil::contains_char(t, '>') {
        let after = trim_spec(t.skip(last_index_of(t, '>') + 1));
        if after.len() > 0 {
            after
        } else if contains_seq(t, "command-name"@) || contains_seq(t, "local-command"@) {
            "[command]"@
        } else {
            t
        }
    } else {
        t
    }
}

/// What one content block contributes: trimmed text when non-empty for a
/// `text` block, `[tool: <name>]` for a `tool_use` block, `[tool result]`
/// for a `tool_result` block, nothing otherwise.
pub open spec fn spec_block_part(b: BlockView) -> Option<Seq<char>> {
    match b.tag {
        Some(t) => {
            if t == "text"@ {
                match b.text {
                    Some(x) => {
                        if trim_spec(x).len() > 0 {
                            Some(trim_spec(x))
                        } else {
                            None
                        }
                    },
                    None => None,
                }
            } else if t == "tool_use"@ {
                match b.name {
                    Some(n) => Some("[tool: "@ + n + "]"@),
                    None => Some("[tool: unknown]"@),
                }
            } else if t == "tool_result"@ {
                Some("[tool result]"@)
            } else {
                None
            }
        },
        None => None,
    }
}

/// The parts contributed by a sequence of blocks, in order.
pub open spec fn spec_parts(bs: Seq<BlockView>) -> Seq<Seq<char>>
    decreases bs.len(),
{
    if bs.len() == 0 {
        Seq::empty()
    } else {
        let rest = spec_parts(bs.drop_last());
        match spec_block_part(bs.last()) {
            Some(p) => rest.push(p),
            None => rest,
        }
    }
}

/// The parts joined with a newline between each pair.
pub open spec fn spec_join(ps: Seq<Seq<char>>) -> Seq<char>
    decreases ps.len(),
{
    if ps.len() == 0 {
        Seq::empty()
    } else if ps.len() == 1 {
        ps[0]
    } else {
        spec_join(ps.drop_last()) + seq!['\n'] + ps.last()
    }
}

/// Extracted text of a content value.
pub open spec fn spec_extract_text(c: ContentView) -> Seq<char> {
    match c {
        ContentView::Text(s) => spec_extract_string(s),
        ContentView::Blocks(bs) => spec_join(spec_parts(bs)),
        ContentView::OtherShape => Seq::empty(),
    }
}

/// Whether a content value holds a `tool_use` block.
pub open spec fn spec_has_tool_use(c: ContentView) -> bool {
    match c {
        ContentView::Blocks(bs) => exists|i: int|
            0 <= i < bs.len() && (#[trigger] bs[i]).tag == Some("tool_use"@),
        _ => false,
    }
}

/// Extracted text of an optional content value; absent content yields the
/// empty string.
pub open spec fn spec_content_of(c: Option<ContentView>) -> Seq<char> {
    match c {
        Some(cv) => spec_extract_text(cv),
        None => Seq::empty(),
    }
}

/// Displayable text of a string content value.
pub fn extract_string(s: &str) -> (r: String)
    ensures
        r@ == spec_extract_string(s@),
{
    let t = trim(s);
    let tn = t.unicode_len();
    if tn > 0 && t.get_char(0) == '<' {
        match rfind_char(t, '>') {
            Some(idx) => {
                proof {
                    crate::strutil::lemma_last_index_of(t@, '>');
                }
                let after = trim(t.substring_char(idx + 1, tn));
                proof {
                    assert(t@.subrange(idx + 1, tn as int) =~= t@.skip(idx + 1));
                }
                if !after.is_empty() {
                    after.to_owned()
                } else if contains_str(t, "command-name") || contains_str(t, "local-command") {
                    "[command]".to_owned()
                } else {
                    t.to_owned()
                }
            },
            None => t.to_owned(),
        }
    } else {
        t.to_owned()
    }
}

/// The text one block contributes, if any.
fn block_part(b: &RawBlock) -> (r: Option<String>)
    ensures
        r.deep_view() == spec_block_part(b.deep_view()),
{
    match &b.tag {
        Some(t) => {
            if str_eq(t.as_str(), "text") {
                match &b.text {
                    Some(x) => {
                        let tx = trim(x.as_str());
                        if !tx.is_empty() {
                            Some(tx.to_owned())
                        } else {
                            None
                        }
                    },
                    None => None,
                }
            } else if str_eq(t.as_str(), "tool_use") {
                let mut out = String::new();
                out.append("[tool: ");
                match &b.name {
                    Some(n) => {
                        out.append(n.as_str());
                    },
                    None => {
                        out.append("unknown");
                    },
                }
                out.append("]");
                proof {
                    reveal_strlit("[tool: ");
                    reveal_strlit("[tool: unknown]");
                    reveal_strlit("unknown");
                    reveal_strlit("]");
                    if b.name is None {
                        assert(Seq::<char>::empty() + "[tool: "@ + "unknown"@ + "]"@
                            =~= "[tool: unknown]"@);
                    } else {
                        assert(Seq::<char>::empty() + "[tool: "@ + b.name.deep_view()->Some_0
                            + "]"@ =~= "[tool: "@ + b.name.deep_view()->Some_0 + "]"@);
                    }
                }
                Some(out)
            } else if str_eq(t.as_str(), "tool_result") {
                Some("[tool result]".to_owned())
            } else {
                None
            }
        },
        None => None,
    }
}

/// Displayable text of a content value.
pub fn extract_text_content(c: &RawContent) -> (r: String)
    ensures
        r@ == spec_extract_text(c.deep_view()),
{
    match c {
        RawContent::Text(s) => extract_string(s.as_str()),
        RawContent::Blocks(bs) => {
            let mut out = String::new();
            let mut any = false;
            let n = bs.len();
            let mut i: usize = 0;
            while i < n
                invariant
                    0 <= i <= n,
                    n == bs@.len(),
                    any == (spec_parts(bs.deep_view().take(i as int)).len() > 0),
                    out@ == spec_join(spec_parts(bs.deep_view().take(i as int))),
                decreases n - i,
            {
                proof {
                    assert(bs.deep_view().take(i + 1).drop_last() =~= bs.deep_view().take(
                        i as int,
                    ));
                    assert(bs.deep_view().take(i + 1).last() == bs@[i as int].deep_view());
                }
                let part = block_part(&bs[i]);
                match part {
                    Some(p) => {
                        if any {
                            crate::strutil::string_push(&mut out, '\n');
                        }
                        out.append(p.as_str());
                        any = true;
                        proof {
                            let ps = spec_parts(bs.deep_view().take(i as int));
                            let ps2 = spec_parts(bs.deep_view().take(i + 1));
                            assert(ps2 == ps.push(p@));
                            if ps.len() == 0 {
                                assert(ps2.len() == 1);
                                assert(Seq::<char>::empty() + p@ =~= p@);
                            } else {
                                assert(ps2.drop_last() =~= ps);
                                assert(ps2.last() == p@);
                            }
                        }
                    },
                    None => {
                        proof {
                            assert(spec_parts(bs.deep_view().take(i + 1)) == spec_parts(
                                bs.deep_view().take(i as int),
                            ));
                        }
                    },
                }
                i = i + 1;
            }
            proof {
                assert(bs.deep_view().take(n as int) =~= bs.deep_view());
            }
            out
        },
        RawContent::OtherShape => String::new(),
    }
}

/// Whether a content value holds a tool-use block.
pub fn has_tool_use(c: &RawContent) -> (r: bool)
    ensures
        r == spec_has_tool_use(c.deep_view()),
{
    match c {
        RawContent::Blocks(bs) => {
            let n = bs.len();
            let mut i: usize = 0;
            while i < n
                invariant
                    0 <= i <= n,
                    n == bs@.len(),
                    c.deep_view() == ContentView::Blocks(bs.deep_view()),
                    forall|k: int| 0 <= k < i ==> (#[trigger] bs.deep_view()[k]).tag != Some(
                        "tool_use"@,
                    ),
                decreases n - i,
            {
                proof {
                    assert(bs.deep_view()[i as int] == bs@[i as int].deep_view());
                }
                match &bs[i].tag {
                    Some(t) => {
                        if str_eq(t.as_str(), "tool_use") {
                            proof {
                                assert((bs.deep_view()[i as int]).tag == Some("tool_use"@));
                                assert(spec_has_tool_use(c.deep_view()));
                            }
                            return true;
                        }
                    },
                    None => {},
                }
                i = i + 1;
            }
            false
        },
        _ => false,
    }
}

// ----- line to message -----

/// The timestamp a line yields: its RFC 3339 `timestamp` field when present
/// and valid, else the fallback `now`.
pub open spec fn spec_ts(ts: Option<Seq<char>>, now: i64) -> i64 {
    match ts {
        Some(s) => match rfc3339_ms(s) {
            Some(ms) => ms,
            None => now,
        },
        None => now,
    }
}

/// Addition on u64 capped at the maximum.
pub open spec fn sat_add_u64(a: u64, b: u64) -> u64 {
    if a + b > u64::MAX {
        u64::MAX
    } else {
        (a + b) as u64
    }
}

/// Input-token total of a usage object: `input_tokens` plus the two cache
/// fields, each defaulting to zero, capped at the u64 maximum.
pub open spec fn spec_tokens_in(u: RawUsage) -> u64 {
    sat_add_u64(
        sat_add_u64(
            match u.input_tokens {
                Some(x) => x,
                None => 0,
            },
            match u.cache_read_input_tokens {
                Some(x) => x,
                None => 0,
            },
        ),
        match u.cache_creation_input_tokens {
            Some(x) => x,
            None => 0,
        },
    )
}

/// The message a line of type `t` yields, before the empty/`[command]`
/// retention check.
pub open spec fn spec_msg_fields(l: LineView, t: Seq<char>, now: i64) -> MsgView {
    let ts = spec_ts(l.timestamp, now);
    if t == "user"@ {
        MsgView {
            msg_type: MessageType::User,
            timestamp_ms: ts,
            content: spec_content_of(l.content),
            tokens_in: None,
            tokens_out: None,
        }
    } else if t == "assistant"@ {
        MsgView {
            msg_type: if match l.content {
                Some(cv) => spec_has_tool_use(cv),
                None => false,
            } {
                MessageType::ToolUse
            } else {
                MessageType::Assistant
            },
            timestamp_ms: ts,
            content: spec_content_of(l.content),
            tokens_in: match l.usage {
                Some(u) => Some(spec_tokens_in(u)),
                None => None,
            },
            tokens_out: match l.usage {
                Some(u) => u.output_tokens,
                None => None,
            },
        }
    } else if t == "progress"@ {
        MsgView {
            msg_type: MessageType::Progress,
            timestamp_ms: ts,
            content: "[progress]"@,
            tokens_in: None,
            tokens_out: None,
        }
    } else {
        MsgView {
            msg_type: MessageType::Other,
            timestamp_ms: ts,
            content: seq!['['] + t + seq![']'],
            tokens_in: None,
            tokens_out: None,
        }
    }
}

/// The message a decoded line yields, or `None` when the line is dropped:
/// lines without a string `type`, of a skipped type, or whose content is
/// empty or `[command]` yield nothing.
pub open spec fn spec_message_of_raw(l: LineView, now: i64) -> Option<MsgView> {
    match l.msg_type {
        None => None,
        Some(t) => {
            if t == "file-history-snapshot"@ || t == "queue-operation"@ {
                None
            } else {
                let m = spec_msg_fields(l, t, now);
                if m.content.len() == 0 || m.content == "[command]"@ {
                    None
                } else {
                    Some(m)
                }
            }
        },
    }
}

/// The message a line of bytes yields: decode, then `spec_message_of_raw`.
pub open spec fn spec_parse_line(line: Seq<u8>, now: i64) -> Option<MsgView> {
    match line_decode(line) {
        None => None,
        Some(l) => spec_message_of_raw(l, now),
    }
}

/// The message a decoded line yields. `now_ms` is the fallback timestamp for
/// lines without a valid RFC 3339 `timestamp` field.
pub fn message_of_raw(l: &RawLine, now_ms: i64) -> (r: Option<SessionMessage>)
    ensures
        r.deep_view() == spec_message_of_raw(l.deep_view(), now_ms),
{
    let t = match &l.msg_type {
        Some(t) => t,
        None => {
            return None;
        },
    };
    if str_eq(t.as_str(), "file-history-snapshot") || str_eq(t.as_str(), "queue-operation") {
        return None;
    }
    let ts = match &l.timestamp {
        Some(s) => match parse_rfc3339_ms(s.as_str()) {
            Some(ms) => ms,
            None => now_ms,
        },
        None => now_ms,
    };
    let msg: SessionMessage = if str_eq(t.as_str(), "user") {
        let content = match &l.content {
            Some(c) => extract_text_content(c),
            None => String::new(),
        };
        SessionMessage {
            msg_type: MessageType::User,
            timestamp_ms: ts,
            content,
            tokens_in: None,
            tokens_out: None,
        }
    } else if str_eq(t.as_str(), "assistant") {
        let content = match &l.content {
            Some(c) => extract_text_content(c),
            None => String::new(),
        };
        let tool = match &l.content {
            Some(c) => has_tool_use(c),
            None => false,
        };
        let tokens_in = match &l.usage {
            Some(u) => {
                let a = u.input_tokens.unwrap_or(0);
                let b = u.cache_read_input_tokens.unwrap_or(0);
                let c = u.cache_creation_input_tokens.unwrap_or(0);
                Some(a.checked_add(b).unwrap_or(u64::MAX).checked_add(c).unwrap_or(u64::MAX))
            },
            None => None,
        };
        let tokens_out = match &l.usage {
            Some(u) => u.output_tokens,
            None => None,
        };
        SessionMessage {
            msg_type: if tool {
                MessageType::ToolUse
            } else {
                MessageType::Assistant
            },
            timestamp_ms: ts,
            content,
            tokens_in,
            tokens_out,
        }
    } else if str_eq(t.as_str(), "progress") {
        SessionMessage {
            msg_type: MessageType::Progress,
            timestamp_ms: ts,
            content: "[progress]".to_owned(),
            tokens_in: None,
            tokens_out: None,
        }
    } else {
        let mut content = String::new();
        content.append("[");
        content.append(t.as_str());
        content.append("]");
        proof {
            reveal_strlit("[");
            reveal_strlit("]");
            assert(Seq::<char>::empty() + "["@ + t@ + "]"@ =~= seq!['['] + t@ + seq![']']);
        }
        SessionMessage {
            msg_type: MessageType::Other,
            timestamp_ms: ts,
            content,
            tokens_in: None,
            tokens_out: None,
        }
    };
    if msg.content.as_str().is_empty() || str_eq(msg.content.as_str(), "[command]") {
        return None;
    }
    Some(msg)
}

/// Parse one log line into a message, or `None` when the line is dropped.
/// `now_ms` is the fallback timestamp for lines without a valid one.
pub fn parse_line(line: &[u8], now_ms: i64) -> (r: Option<SessionMessage>)
    ensures
        r.deep_view() == spec_parse_line(line@, now_ms),
{
    match decode_line(line) {
        Some(raw) => message_of_raw(&raw, now_ms),
        None => None,
    }
}

// ----- line to metadata -----

/// The metadata a decoded line yields: `summary` lines yield their summary
/// only; lines carrying a session id yield branch, working directory and
/// slug; anything else yields nothing.
pub open spec fn spec_meta_of_raw(l: LineView) -> Option<MetaView> {
    match l.msg_type {
        None => None,
        Some(t) => {
            if t == "summary"@ {
                Some(MetaView { git_branch: None, cwd: None, slug: None, summary: l.summary })
            } else if l.session_id is Some {
                Some(
                    MetaView {
                        git_branch: l.git_branch,
                        cwd: l.cwd,
                        slug: l.slug,
                        summary: None,
                    },
                )
            } else {
                None
            }
        },
    }
}

/// The metadata a line of bytes yields: decode, then `spec_meta_of_raw`.
pub open spec fn spec_extract_meta(line: Seq<u8>) -> Option<MetaView> {
    match line_decode(line) {
        None => None,
        Some(l) => spec_meta_of_raw(l),
    }
}

/// The metadata a decoded line yields, if any.
pub fn meta_of_raw(l: &RawLine) -> (r: Option<SessionMeta>)
    ensures
        r.deep_view() == spec_meta_of_raw(l.deep_view()),
{
    let t = match &l.msg_type {
        Some(t) => t,
        None => {
            return None;
        },
    };
    if str_eq(t.as_str(), "summary") {
        return Some(
            SessionMeta {
                git_branch: None,
                cwd: None,
                slug: None,
                summary: match &l.summary {
                    Some(s) => Some(s.clone()),
                    None => None,
                },
            },
        );
    }
    if l.session_id.is_none() {
        return None;
    }
    Some(
        SessionMeta {
            git_branch: match &l.git_branch {
                Some(s) => Some(s.clone()),
                None => None,
            },
            cwd: match &l.cwd {
                Some(s) => Some(s.clone()),
                None => None,
            },
            slug: match &l.slug {
                Some(s) => Some(s.clone()),
                None => None,
            },
            summary: None,
        },
    )
}

/// Extract metadata from one log line, or `None` when it carries none.
pub fn extract_meta(line: &[u8]) -> (r: Option<SessionMeta>)
    ensures
        r.deep_view() == spec_extract_meta(line@),
{
    match decode_line(line) {
        Some(raw) => meta_of_raw(&raw),
        None => None,
    }
}

} // verus!
