//! Plain-data form of one decoded log line and of one metadata-index entry,
//! together with the trusted wrappers that produce them.
//!
//! A log line is a JSON document; `serde_json` turns it into a tree, and the
//! wrappers here flatten the fields this library reads into `RawLine`, a type
//! of plain values that the verified parser works on. What a given line
//! decodes to is named by the uninterpreted function `line_decode`; everything
//! after the decode is verified against that name.

use vstd::prelude::*;

verus! {

/// Token-count fields of a line's `message.usage` object.
#[derive(Debug, Clone, Copy, PartialEq, Eq, Structural)]
pub struct RawUsage {
    pub input_tokens: Option<u64>,
    pub output_tokens: Option<u64>,
    pub cache_read_input_tokens: Option<u64>,
    pub cache_creation_input_tokens: Option<u64>,
}

impl DeepView for RawUsage {
    type V = RawUsage;

    open spec fn deep_view(&self) -> RawUsage {
        *self
    }
}

/// One element of a content array: the fields this library reads, each absent
/// when missing or not a string.
#[derive(Debug, Clone)]
pub struct RawBlock {
    pub tag: Option<String>,
    pub text: Option<String>,
    pub name: Option<String>,
}

pub struct BlockView {
    pub tag: Option<Seq<char>>,
    pub text: Option<Seq<char>>,
    pub name: Option<Seq<char>>,
}

impl DeepView for RawBlock {
    type V = BlockView;

    open spec fn deep_view(&self) -> BlockView {
        BlockView { tag: self.tag.deep_view(), text: self.text.deep_view(), name: self.name.deep_view() }
    }
}

/// A line's `message.content` value: a string, an array of blocks, or some
/// other JSON shape.
#[derive(Debug, Clone)]
pub enum RawContent {
    Text(String),
    Blocks(Vec<RawBlock>),
    OtherShape,
}

pub enum ContentView {
    Text(Seq<char>),
    Blocks(Seq<BlockView>),
    OtherShape,
}

impl DeepView for RawContent {
    type V = ContentView;

    open spec fn deep_view(&self) -> ContentView {
        match self {
            RawContent::Text(s) => ContentView::Text(s@),
            RawContent::Blocks(bs) => ContentView::Blocks(bs.deep_view()),
            RawContent::OtherShape => ContentView::OtherShape,
        }
    }
}

/// The fields of one decoded log line. A field is `None` when it is absent
/// or not of the expected JSON type.
#[derive(Debug, Clone)]
pub struct RawLine {
    pub msg_type: Option<String>,
    pub timestamp: Option<String>,
    pub session_id: Option<String>,
    pub git_branch: Option<String>,
    pub cwd: Option<String>,
    pub slug: Option<String>,
    pub summary: Option<String>,
    pub content: Option<RawContent>,
    pub usage: Option<RawUsage>,
}

pub struct LineView {
    pub msg_type: Option<Seq<char>>,
    pub timestamp: Option<Seq<char>>,
    pub session_id: Option<Seq<char>>,
    pub git_branch: Option<Seq<char>>,
    pub cwd: Option<Seq<char>>,
    pub slug: Option<Seq<char>>,
    pub summary: Option<Seq<char>>,
    pub content: Option<ContentView>,
    pub usage: Option<RawUsage>,
}

impl DeepView for RawLine {
    type V = LineView;

    open spec fn deep_view(&self) -> LineView {
        LineView {
            msg_type: self.msg_type.deep_view(),
            timestamp: self.timestamp.deep_view(),
            session_id: self.session_id.deep_view(),
            git_branch: self.git_branch.deep_view(),
            cwd: self.cwd.deep_view(),
            slug: self.slug.deep_view(),
            summary: self.summary.deep_view(),
            content: self.content.deep_view(),
            usage: self.usage,
        }
    }
}

/// One entry of a project's metadata-index document, fields as decoded.
#[derive(Debug, Clone)]
pub struct RawIndexEntry {
    pub session_id: Option<String>,
    pub custom_title: Option<String>,
    pub summary: Option<String>,
    pub git_branch: Option<String>,
    pub project_path: Option<String>,
}

pub struct RawEntryView {
    pub session_id: Option<Seq<char>>,
    pub custom_title: Option<Seq<char>>,
    pub summary: Option<Seq<char>>,
    pub git_branch: Option<Seq<char>>,
    pub project_path: Option<Seq<char>>,
}

impl DeepView for RawIndexEntry {
    type V = RawEntryView;

    open spec fn deep_view(&self) -> RawEntryView {
        RawEntryView {
            session_id: self.session_id.deep_view(),
            custom_title: self.custom_title.deep_view(),
            summary: self.summary.deep_view(),
            git_branch: self.git_branch.deep_view(),
            project_path: self.project_path.deep_view(),
        }
    }
}

#[verifier::external_type_specification]
#[verifier::external_body]
pub struct ExValue(serde_json::Value);

/// What a log line decodes to: `None` when the line is not valid JSON, else
/// the fields read out of the document. A pure function of the bytes.
pub uninterp spec fn line_decode(line: Seq<u8>) -> Option<LineView>;

/// Relies on `serde_json::from_slice`: parses one JSON log line; the result
/// depends on the bytes alone.
#[verifier::external_body]
pub(crate) fn decode_line(line: &[u8]) -> (r: Option<RawLine>)
    ensures
        r.deep_view() == line_decode(line@),
{
    serde_json::from_slice::<serde_json::Value>(line).ok().map(|v| raw_of_value(&v))
}

/// Relies on `serde_json::Value::get` / `as_str`: copies the string fields
/// this library reads out of a decoded line into plain data.
#[verifier::external_body]
fn raw_of_value(v: &serde_json::Value) -> RawLine {
    let f = |k: &str| v.get(k).and_then(|x| x.as_str()).map(str::to_string);
    RawLine {
        msg_type: f("type"),
        timestamp: f("timestamp"),
        session_id: f("sessionId"),
        git_branch: f("gitBranch"),
        cwd: f("cwd"),
        slug: f("slug"),
        summary: f("summary"),
        content: v.get("message").and_then(|m| m.get("content")).map(content_of_value),
        usage: v.get("message").and_then(|m| m.get("usage")).map(usage_of_value),
    }
}

/// Relies on `serde_json::Value`'s variants: tells a string content value
/// from an array of blocks, moving the data into plain form.
#[verifier::external_body]
fn content_of_value(v: &serde_json::Value) -> RawContent {
    match v {
        serde_json::Value::String(s) => RawContent::Text(s.clone()),
        serde_json::Value::Array(a) => RawContent::Blocks(a.iter().map(block_of_value).collect()),
        _ => RawContent::OtherShape,
    }
}

/// Relies on `serde_json::Value::get` / `as_str`: copies one content block's
/// string fields into plain data.
#[verifier::external_body]
fn block_of_value(v: &serde_json::Value) -> RawBlock {
    let f = |k: &str| v.get(k).and_then(|x| x.as_str()).map(str::to_string);
    RawBlock { tag: f("type"), text: f("text"), name: f("name") }
}

/// Relies on `serde_json::Value::get` / `as_u64`: copies the token-count
/// fields of a usage object into plain data.
#[verifier::external_body]
fn usage_of_value(v: &serde_json::Value) -> RawUsage {
    let f = |k: &str| v.get(k).and_then(|x| x.as_u64());
    RawUsage {
        input_tokens: f("input_tokens"),
        output_tokens: f("output_tokens"),
        cache_read_input_tokens: f("cache_read_input_tokens"),
        cache_creation_input_tokens: f("cache_creation_input_tokens"),
    }
}

/// What a metadata-index document decodes to: `None` when the bytes are not
/// valid JSON or hold no `entries` array, else the entries in order. A pure
/// function of the bytes.
pub uninterp spec fn index_decode(data: Seq<u8>) -> Option<Seq<RawEntryView>>;

/// Relies on `serde_json::from_slice` and `Value::get` / `as_array`: parses a
/// metadata-index document into its entries; the result depends on the bytes
/// alone.
#[verifier::external_body]
pub(crate) fn decode_index(data: &[u8]) -> (r: Option<Vec<RawIndexEntry>>)
    ensures
        r.deep_view() == index_decode(data@),
{
    let v: serde_json::Value = serde_json::from_slice(data).ok()?;
    let arr = v.get("entries")?.as_array()?;
    Some(arr.iter().map(entry_of_value).collect())
}

/// Relies on `serde_json::Value::get` / `as_str`: copies one index entry's
/// string fields into plain data.
#[verifier::external_body]
fn entry_of_value(v: &serde_json::Value) -> RawIndexEntry {
    let f = |k: &str| v.get(k).and_then(|x| x.as_str()).map(str::to_string);
    RawIndexEntry {
        session_id: f("sessionId"),
        custom_title: f("customTitle"),
        summary: f("summary"),
        git_branch: f("gitBranch"),
        project_path: f("projectPath"),
    }
}

/// What `chrono`'s RFC 3339 parse yields for a string, as milliseconds since
/// the Unix epoch: `None` when the string is not a valid RFC 3339 timestamp.
/// A pure function of the characters.
pub uninterp spec fn rfc3339_ms(s: Seq<char>) -> Option<i64>;

/// Relies on `chrono::DateTime::parse_from_rfc3339` and `timestamp_millis`:
/// the parsed instant in epoch milliseconds, a pure function of the string.
#[verifier::external_body]
pub(crate) fn parse_rfc3339_ms(s: &str) -> (r: Option<i64>)
    ensures
        r == rfc3339_ms(s@),
{
    chrono::DateTime::parse_from_rfc3339(s).ok().map(|dt| dt.timestamp_millis())
}

} // verus!
