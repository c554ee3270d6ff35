//! Sessions and tailing: a `Session` is the in-memory state derived from one
//! log file — its parsed messages, accumulated metadata, token totals and the
//! tail cursor `file_offset`, which after every successful read equals the
//! file length as of that read.
//!
//! The caller (outside this crate) reads bytes from disk and hands them in;
//! everything from the bytes onward — splitting into lines, parsing, metadata
//! accumulation, aggregate maintenance — is verified here.

use vstd::prelude::*;

use crate::decode::{decode_index, index_decode, RawEntryView, RawIndexEntry};
use crate::message::{
    spec_extract_meta, spec_parse_line, sat_add_u64, extract_meta, parse_line, MsgView,
    SessionMessage,
};
use crate::strutil::{clone_opt, path_stem, spec_file_name, spec_stem_of};

verus! {

/// How recently a session's file must have been modified to count as active,
/// in milliseconds.
pub const ACTIVE_THRESHOLD_MS: i64 = 300_000;

/// One tracked log file and its derived in-memory state.
#[derive(Debug)]
pub struct Session {
    /// Derived from the log file's base name.
    pub id: String,
    /// Derived from the parent directory's name.
    pub project_slug: String,
    pub slug: Option<String>,
    pub custom_title: Option<String>,
    pub summary: Option<String>,
    pub git_branch: Option<String>,
    pub cwd: Option<String>,
    /// Parsed messages in arrival order, append-only.
    pub messages: Vec<SessionMessage>,
    /// Timestamp of the most recent parsed message, else creation time,
    /// in milliseconds since the Unix epoch.
    pub last_activity: i64,
    /// Tail cursor: equal to the file length as of the last successful read.
    pub file_offset: u64,
    pub file_path: String,
    pub total_tokens_in: u64,
    pub total_tokens_out: u64,
    /// Last known modification time of the backing file, epoch milliseconds;
    /// `None` when the file's metadata could not be read.
    pub mtime_ms: Option<i64>,
}

/// Mathematical view of a session.
pub struct SessionView {
    pub id: Seq<char>,
    pub project_slug: Seq<char>,
    pub slug: Option<Seq<char>>,
    pub custom_title: Option<Seq<char>>,
    pub summary: Option<Seq<char>>,
    pub git_branch: Option<Seq<char>>,
    pub cwd: Option<Seq<char>>,
    pub messages: Seq<MsgView>,
    pub last_activity: i64,
    pub file_offset: u64,
    pub file_path: Seq<char>,
    pub total_tokens_in: u64,
    pub total_tokens_out: u64,
    pub mtime_ms: Option<i64>,
}

impl View for Session {
    type V = SessionView;

    open spec fn view(&self) -> SessionView {
        SessionView {
            id: self.id@,
            project_slug: self.project_slug@,
            slug: self.slug.deep_view(),
            custom_title: self.custom_title.deep_view(),
            summary: self.summary.deep_view(),
            git_branch: self.git_branch.deep_view(),
            cwd: self.cwd.deep_view(),
            messages: self.messages.deep_view(),
            last_activity: self.last_activity,
            file_offset: self.file_offset,
            file_path: self.file_path@,
            total_tokens_in: self.total_tokens_in,
            total_tokens_out: self.total_tokens_out,
            mtime_ms: self.mtime_ms,
        }
    }
}

impl DeepView for Session {
    type V = SessionView;

    open spec fn deep_view(&self) -> SessionView {
        self.view()
    }
}

// ----- line splitting -----

/// A line with one trailing carriage return removed.
pub open spec fn strip_cr(l: Seq<u8>) -> Seq<u8> {
    if l.len() > 0 && l.last() == 13u8 {
        l.drop_last()
    } else {
        l
    }
}

/// The complete lines of `d` and the pending partial line after the last
/// newline, folding bytes from the left.
pub open spec fn split_state(d: Seq<u8>) -> (Seq<Seq<u8>>, Seq<u8>)
    decreases d.len(),
{
    if d.len() == 0 {
        (Seq::empty(), Seq::empty())
    } else {
        let (ls, cur) = split_state(d.drop_last());
        if d.last() == 10u8 {
            (ls.push(strip_cr(cur)), Seq::empty())
        } else {
            (ls, cur.push(d.last()))
        }
    }
}

/// The lines of a byte string, as `BufRead::lines` yields them: split on
/// newline, one trailing carriage return stripped from each terminated line,
/// and a final unterminated line yielded as it stands.
pub open spec fn spec_lines(d: Seq<u8>) -> Seq<Seq<u8>> {
    let (ls, cur) = split_state(d);
    if cur.len() == 0 {
        ls
    } else {
        ls.push(cur)
    }
}

/// Split bytes into lines.
pub fn split_lines(data: &[u8]) -> (r: Vec<Vec<u8>>)
    ensures
        r.deep_view() == spec_lines(data@),
{
    let n = data.len();
    let mut acc: Vec<Vec<u8>> = Vec::new();
    let mut cur: Vec<u8> = Vec::new();
    let mut i: usize = 0;
    proof {
        assert(acc.deep_view() =~= split_state(data@.take(0)).0);
    }
    while i < n
        invariant
            0 <= i <= n,
            n == data@.len(),
            acc.deep_view() == split_state(data@.take(i as int)).0,
            cur@ == split_state(data@.take(i as int)).1,
        decreases n - i,
    {
        proof {
            assert(data@.take(i + 1).drop_last() =~= data@.take(i as int));
            assert(data@.take(i + 1).last() == data@[i as int]);
        }
        let ghost prev = split_state(data@.take(i as int));
        let b = data[i];
        if b == 10u8 {
            if cur.len() > 0 && cur[cur.len() - 1] == 13u8 {
                cur.pop();
            }
            proof {
                assert(cur@ =~= strip_cr(prev.1));
            }
            acc.push(cur);
            cur = Vec::new();
            proof {
                assert(acc.deep_view() =~~= prev.0.push(strip_cr(prev.1)));
                assert(cur@ =~= split_state(data@.take(i + 1)).1);
            }
        } else {
            cur.push(b);
            proof {
                assert(acc.deep_view() =~= split_state(data@.take(i + 1)).0);
            }
        }
        i = i + 1;
    }
    proof {
        assert(data@.take(n as int) =~= data@);
    }
    if cur.len() > 0 {
        acc.push(cur);
        proof {
            assert(acc.deep_view() =~~= spec_lines(data@));
        }
    }
    acc
}

// ----- the per-line fold -----

/// Metadata accumulation for one line: while branch, working directory or
/// slug is unset, a metadata fragment fills exactly the unset fields.
pub open spec fn spec_apply_meta(s: SessionView, line: Seq<u8>) -> SessionView {
    if s.git_branch is None || s.cwd is None || s.slug is None {
        match spec_extract_meta(line) {
            Some(m) => SessionView {
                git_branch: if s.git_branch is None {
                    m.git_branch
                } else {
                    s.git_branch
                },
                cwd: if s.cwd is None {
                    m.cwd
                } else {
                    s.cwd
                },
                slug: if s.slug is None {
                    m.slug
                } else {
                    s.slug
                },
                ..s
            },
            None => s,
        }
    } else {
        s
    }
}

/// Message accumulation for one line: a retained message is appended, becomes
/// the latest activity, and its token counts join the running totals.
pub open spec fn spec_apply_msg(s: SessionView, line: Seq<u8>, now: i64) -> SessionView {
    match spec_parse_line(line, now) {
        Some(m) => SessionView {
            messages: s.messages.push(m),
            last_activity: m.timestamp_ms,
            total_tokens_in: match m.tokens_in {
                Some(t) => sat_add_u64(s.total_tokens_in, t),
                None => s.total_tokens_in,
            },
            total_tokens_out: match m.tokens_out {
                Some(t) => sat_add_u64(s.total_tokens_out, t),
                None => s.total_tokens_out,
            },
            ..s
        },
        None => s,
    }
}

/// The effect of one log line on a session.
pub open spec fn spec_apply_line(s: SessionView, line: Seq<u8>, now: i64) -> SessionView {
    spec_apply_msg(spec_apply_meta(s, line), line, now)
}

/// The effect of a sequence of log lines on a session, in order.
pub open spec fn spec_apply_lines(s: SessionView, lines: Seq<Seq<u8>>, now: i64) -> SessionView
    decreases lines.len(),
{
    if lines.len() == 0 {
        s
    } else {
        spec_apply_line(spec_apply_lines(s, lines.drop_last(), now), lines.last(), now)
    }
}

/// The messages a sequence of lines yields, in order: exactly the lines that
/// pass the parser's retention rules.
pub open spec fn spec_line_msgs(lines: Seq<Seq<u8>>, now: i64) -> Seq<MsgView> {
    lines.filter_map(|l: Seq<u8>| spec_parse_line(l, now))
}

/// Sum of the input-token counts of a sequence of messages, absent counting
/// as zero.
pub open spec fn spec_tok_in_sum(msgs: Seq<MsgView>) -> int
    decreases msgs.len(),
{
    if msgs.len() == 0 {
        0
    } else {
        spec_tok_in_sum(msgs.drop_last()) + match msgs.last().tokens_in {
            Some(t) => t as int,
            None => 0,
        }
    }
}

/// Sum of the output-token counts of a sequence of messages.
pub open spec fn spec_tok_out_sum(msgs: Seq<MsgView>) -> int
    decreases msgs.len(),
{
    if msgs.len() == 0 {
        0
    } else {
        spec_tok_out_sum(msgs.drop_last()) + match msgs.last().tokens_out {
            Some(t) => t as int,
            None => 0,
        }
    }
}

/// The session's message sequence after a fold is its old sequence followed
/// by exactly the retained messages of the new lines; identity, display
/// metadata sourced from the index, the tail cursor and the backing path are
/// untouched; the latest activity is the last retained message's timestamp,
/// or unchanged when no line is retained.
pub proof fn lemma_apply_lines_effect(s: SessionView, lines: Seq<Seq<u8>>, now: i64)
    ensures
        spec_apply_lines(s, lines, now).messages == s.messages + spec_line_msgs(lines, now),
        spec_apply_lines(s, lines, now).id == s.id,
        spec_apply_lines(s, lines, now).project_slug == s.project_slug,
        spec_apply_lines(s, lines, now).custom_title == s.custom_title,
        spec_apply_lines(s, lines, now).summary == s.summary,
        spec_apply_lines(s, lines, now).file_offset == s.file_offset,
        spec_apply_lines(s, lines, now).file_path == s.file_path,
        spec_apply_lines(s, lines, now).mtime_ms == s.mtime_ms,
        spec_apply_lines(s, lines, now).last_activity == if spec_line_msgs(lines, now).len() == 0 {
            s.last_activity
        } else {
            spec_line_msgs(lines, now).last().timestamp_ms
        },
    decreases lines.len(),
{
    let f = |l: Seq<u8>| spec_parse_line(l, now);
    if lines.len() == 0 {
        assert(s.messages + Seq::<MsgView>::empty() =~= s.messages);
    } else {
        lemma_apply_lines_effect(s, lines.drop_last(), now);
        let prev = spec_apply_lines(s, lines.drop_last(), now);
        let last = lines.last();
        match spec_parse_line(last, now) {
            Some(m) => {
                assert(spec_line_msgs(lines, now) == spec_line_msgs(lines.drop_last(), now)
                    + seq![m]);
                assert(prev.messages.push(m) =~= s.messages + spec_line_msgs(lines, now));
                assert(spec_line_msgs(lines, now).last() == m);
            },
            None => {
                assert(spec_line_msgs(lines, now) == spec_line_msgs(lines.drop_last(), now));
            },
        }
    }
}

/// When the token sums of the retained messages fit beside the running
/// totals, the fold's totals are exactly the old totals plus those sums.
pub proof fn lemma_token_totals(s: SessionView, lines: Seq<Seq<u8>>, now: i64)
    requires
        s.total_tokens_in + spec_tok_in_sum(spec_line_msgs(lines, now)) <= u64::MAX,
        s.total_tokens_out + spec_tok_out_sum(spec_line_msgs(lines, now)) <= u64::MAX,
    ensures
        spec_apply_lines(s, lines, now).total_tokens_in == s.total_tokens_in + spec_tok_in_sum(
            spec_line_msgs(lines, now),
        ),
        spec_apply_lines(s, lines, now).total_tokens_out == s.total_tokens_out + spec_tok_out_sum(
            spec_line_msgs(lines, now),
        ),
    decreases lines.len(),
{
    lemma_tok_sums_nonneg(spec_line_msgs(lines, now));
    if lines.len() == 0 {
    } else {
        let msgs = spec_line_msgs(lines, now);
        let prefix_msgs = spec_line_msgs(lines.drop_last(), now);
        lemma_tok_sums_nonneg(prefix_msgs);
        match spec_parse_line(lines.last(), now) {
            Some(m) => {
                assert(msgs == prefix_msgs + seq![m]);
                assert(msgs.drop_last() =~= prefix_msgs);
                assert(msgs.last() == m);
            },
            None => {
                assert(msgs == prefix_msgs);
            },
        }
        lemma_token_totals(s, lines.drop_last(), now);
    }
}

/// Token sums are never negative.
pub proof fn lemma_tok_sums_nonneg(msgs: Seq<MsgView>)
    ensures
        spec_tok_in_sum(msgs) >= 0,
        spec_tok_out_sum(msgs) >= 0,
    decreases msgs.len(),
{
    if msgs.len() > 0 {
        lemma_tok_sums_nonneg(msgs.drop_last());
    }
}

/// Run the per-line fold over freshly read bytes: split into lines, accumulate
/// unset metadata fields, append retained messages and maintain the
/// aggregates. Returns the retained messages. Does not touch `file_offset`.
fn apply_data(session: &mut Session, data: &[u8], now_ms: i64) -> (new_msgs: Vec<SessionMessage>)
    ensures
        final(session)@ == spec_apply_lines(old(session)@, spec_lines(data@), now_ms),
        new_msgs.deep_view() == spec_line_msgs(spec_lines(data@), now_ms),
{
    let lines = split_lines(data);
    let mut new_msgs: Vec<SessionMessage> = Vec::new();
    let n = lines.len();
    let mut i: usize = 0;
    proof {
        assert(lines.deep_view().take(0) =~= Seq::<Seq<u8>>::empty());
    }
    while i < n
        invariant
            0 <= i <= n,
            n == lines@.len(),
            lines.deep_view() == spec_lines(data@),
            session@ == spec_apply_lines(old(session)@, lines.deep_view().take(i as int), now_ms),
            new_msgs.deep_view() == spec_line_msgs(lines.deep_view().take(i as int), now_ms),
        decreases n - i,
    {
        proof {
            assert(lines.deep_view()[i as int] == lines@[i as int].deep_view());
            assert(lines@[i as int].deep_view() == lines@[i as int]@);
            assert(lines.deep_view().take(i + 1).drop_last() =~= lines.deep_view().take(i as int));
            assert(lines.deep_view().take(i + 1).last() == lines.deep_view()[i as int]);
        }
        let ghost mid = spec_apply_meta(session@, lines.deep_view()[i as int]);
        let line = &lines[i];
        if session.git_branch.is_none() || session.cwd.is_none() || session.slug.is_none() {
            match extract_meta(line.as_slice()) {
                Some(meta) => {
                    if session.git_branch.is_none() {
                        session.git_branch = meta.git_branch;
                    }
                    if session.cwd.is_none() {
                        session.cwd = meta.cwd;
                    }
                    if session.slug.is_none() {
                        session.slug = meta.slug;
                    }
                },
                None => {},
            }
        }
        proof {
            assert(session@ == mid);
        }
        match parse_line(line.as_slice(), now_ms) {
            Some(msg) => {
                session.last_activity = msg.timestamp_ms;
                match msg.tokens_in {
                    Some(t) => {
                        session.total_tokens_in = session.total_tokens_in.saturating_add(t);
                    },
                    None => {},
                }
                match msg.tokens_out {
                    Some(t) => {
                        session.total_tokens_out = session.total_tokens_out.saturating_add(t);
                    },
                    None => {},
                }
                new_msgs.push(msg.duplicate());
                proof {
                    let lv = lines.deep_view()[i as int];
                    let m = spec_parse_line(lv, now_ms)->Some_0;
                    assert(new_msgs.deep_view() =~= spec_line_msgs(
                        lines.deep_view().take(i as int),
                        now_ms,
                    ).push(m));
                }
                session.messages.push(msg);
                proof {
                    let lv = lines.deep_view()[i as int];
                    let m = spec_parse_line(lv, now_ms)->Some_0;
                    assert(session.messages.deep_view() =~= mid.messages.push(m));
                }
            },
            None => {},
        }
        proof {
            let lv = lines.deep_view()[i as int];
            assert(session@ == spec_apply_msg(mid, lv, now_ms));
            let prefix_msgs = spec_line_msgs(lines.deep_view().take(i as int), now_ms);
            let step_msgs = spec_line_msgs(lines.deep_view().take(i + 1), now_ms);
            match spec_parse_line(lv, now_ms) {
                Some(m) => {
                    assert(step_msgs == prefix_msgs + seq![m]);
                    assert(new_msgs.deep_view() =~= step_msgs);
                },
                None => {
                    assert(step_msgs == prefix_msgs);
                },
            }
        }
        i = i + 1;
    }
    proof {
        assert(lines.deep_view().take(n as int) =~= lines.deep_view());
    }
    new_msgs
}

// ----- metadata index entries -----

/// One entry of a project's metadata index, keyed by session id.
#[derive(Debug, Clone)]
pub struct IndexEntry {
    pub session_id: String,
    pub custom_title: Option<String>,
    pub summary: Option<String>,
    pub git_branch: Option<String>,
    pub project_path: Option<String>,
}

/// Mathematical view of an index entry.
pub struct EntryView {
    pub session_id: Seq<char>,
    pub custom_title: Option<Seq<char>>,
    pub summary: Option<Seq<char>>,
    pub git_branch: Option<Seq<char>>,
    pub project_path: Option<Seq<char>>,
}

impl View for IndexEntry {
    type V = EntryView;

    open spec fn view(&self) -> EntryView {
        EntryView {
            session_id: self.session_id@,
            custom_title: self.custom_title.deep_view(),
            summary: self.summary.deep_view(),
            git_branch: self.git_branch.deep_view(),
            project_path: self.project_path.deep_view(),
        }
    }
}

impl DeepView for IndexEntry {
    type V = EntryView;

    open spec fn deep_view(&self) -> EntryView {
        self.view()
    }
}

/// Whether every decoded entry carries a session id; a document with any
/// entry missing one is malformed as a whole.
pub open spec fn spec_entries_ok(es: Seq<RawEntryView>) -> bool {
    forall|i: int| 0 <= i < es.len() ==> (#[trigger] es[i]).session_id is Some
}

/// The usable entries of a decoded index document: all of them when the
/// document decoded and every entry has a session id, else none.
pub open spec fn spec_index_entries(r: Option<Seq<RawEntryView>>) -> Seq<EntryView> {
    match r {
        Some(es) => if spec_entries_ok(es) {
            es.map_values(
                |e: RawEntryView| EntryView {
                    session_id: e.session_id->Some_0,
                    custom_title: e.custom_title,
                    summary: e.summary,
                    git_branch: e.git_branch,
                    project_path: e.project_path,
                },
            )
        } else {
            Seq::empty()
        },
        None => Seq::empty(),
    }
}

/// Load the entries of a metadata-index document; a missing or malformed
/// document yields no entries, never an error.
pub fn load_sessions_index(data: &[u8]) -> (r: Vec<IndexEntry>)
    ensures
        r.deep_view() == spec_index_entries(index_decode(data@)),
{
    let raw = match decode_index(data) {
        Some(v) => v,
        None => {
            let empty: Vec<IndexEntry> = Vec::new();
            proof {
                assert(empty.deep_view() =~= Seq::<EntryView>::empty());
            }
            return empty;
        },
    };
    let mut out: Vec<IndexEntry> = Vec::new();
    let n = raw.len();
    let mut i: usize = 0;
    while i < n
        invariant
            0 <= i <= n,
            n == raw@.len(),
            index_decode(data@) == Some(raw.deep_view()),
            forall|k: int| 0 <= k < i ==> (#[trigger] raw.deep_view()[k]).session_id is Some,
            out.deep_view() =~= raw.deep_view().take(i as int).map_values(
                |e: RawEntryView| EntryView {
                    session_id: e.session_id->Some_0,
                    custom_title: e.custom_title,
                    summary: e.summary,
                    git_branch: e.git_branch,
                    project_path: e.project_path,
                },
            ),
        decreases n - i,
    {
        proof {
            assert(raw.deep_view()[i as int] == raw@[i as int].deep_view());
        }
        let e = &raw[i];
        match &e.session_id {
            Some(sid) => {
                let entry = IndexEntry {
                    session_id: sid.clone(),
                    custom_title: clone_opt(&e.custom_title),
                    summary: clone_opt(&e.summary),
                    git_branch: clone_opt(&e.git_branch),
                    project_path: clone_opt(&e.project_path),
                };
                proof {
                    let f = |e: RawEntryView| EntryView {
                        session_id: e.session_id->Some_0,
                        custom_title: e.custom_title,
                        summary: e.summary,
                        git_branch: e.git_branch,
                        project_path: e.project_path,
                    };
                    assert(entry@ == f(raw.deep_view()[i as int]));
                    assert(raw.deep_view().take(i + 1).map_values(f) =~= raw.deep_view().take(
                        i as int,
                    ).map_values(f).push(f(raw.deep_view()[i as int])));
                }
                out.push(entry);
                proof {
                    let f = |e: RawEntryView| EntryView {
                        session_id: e.session_id->Some_0,
                        custom_title: e.custom_title,
                        summary: e.summary,
                        git_branch: e.git_branch,
                        project_path: e.project_path,
                    };
                    assert(out.deep_view() =~= raw.deep_view().take(i + 1).map_values(f));
                }
            },
            None => {
                proof {
                    assert((raw.deep_view()[i as int]).session_id is None);
                    assert(!spec_entries_ok(raw.deep_view()));
                }
                let empty: Vec<IndexEntry> = Vec::new();
                proof {
                    assert(empty.deep_view() =~= Seq::<EntryView>::empty());
                }
                return empty;
            },
        }
        i = i + 1;
    }
    proof {
        assert(raw.deep_view().take(n as int) =~= raw.deep_view());
        assert(spec_entries_ok(raw.deep_view()));
    }
    out
}

/// The last entry with the given session id, if any: a later entry for the
/// same id supersedes an earlier one.
pub open spec fn spec_last_entry(es: Seq<EntryView>, id: Seq<char>) -> Option<EntryView>
    decreases es.len(),
{
    if es.len() == 0 {
        None
    } else if es.last().session_id == id {
        Some(es.last())
    } else {
        spec_last_entry(es.drop_last(), id)
    }
}

/// Find the entry for a session id, the last one when ids repeat.
pub fn find_index_entry<'a>(entries: &'a Vec<IndexEntry>, id: &str) -> (r: Option<&'a IndexEntry>)
    ensures
        r.deep_view() == spec_last_entry(entries.deep_view(), id@),
{
    let n = entries.len();
    proof {
        assert(entries.deep_view().take(n as int) =~= entries.deep_view());
    }
    let mut j: usize = n;
    while j > 0
        invariant
            0 <= j <= n,
            n == entries@.len(),
            spec_last_entry(entries.deep_view(), id@) == spec_last_entry(
                entries.deep_view().take(j as int),
                id@,
            ),
        decreases j,
    {
        proof {
            assert(entries.deep_view()[j - 1] == entries@[j - 1].deep_view());
        }
        proof {
            assert(entries.deep_view().take(j as int).last() == entries@[j - 1].deep_view());
            assert(entries.deep_view().take(j as int).drop_last() =~= entries.deep_view().take(
                j - 1,
            ));
        }
        let e = &entries[j - 1];
        if crate::strutil::str_eq(e.session_id.as_str(), id) {
            return Some(e);
        }
        j = j - 1;
    }
    proof {
        assert(entries.deep_view().take(0) =~= Seq::<EntryView>::empty());
    }
    None
}

// ----- session construction and tailing -----

/// The state of a freshly discovered session before any line is read: id from
/// the file's base name, display metadata seeded from the index entry, no
/// messages, tail cursor at zero, creation time as the latest activity.
pub open spec fn spec_init_session(
    file_path: Seq<char>,
    project_slug: Seq<char>,
    e: Option<EntryView>,
    now: i64,
) -> SessionView {
    SessionView {
        id: spec_stem_of(spec_file_name(file_path)),
        project_slug: project_slug,
        slug: None,
        custom_title: match e {
            Some(e) => e.custom_title,
            None => None,
        },
        summary: match e {
            Some(e) => e.summary,
            None => None,
        },
        git_branch: match e {
            Some(e) => e.git_branch,
            None => None,
        },
        cwd: match e {
            Some(e) => e.project_path,
            None => None,
        },
        messages: Seq::empty(),
        last_activity: now,
        file_offset: 0,
        file_path: file_path,
        total_tokens_in: 0,
        total_tokens_out: 0,
        mtime_ms: None,
    }
}

/// Build a session from the full contents of its log file: fold every line,
/// then set the tail cursor to the file length. `now_ms` serves as creation
/// time and as the fallback timestamp for lines without one.
pub fn parse_session_data(
    file_path: String,
    project_slug: String,
    index_entry: Option<&IndexEntry>,
    data: &[u8],
    file_len: u64,
    now_ms: i64,
) -> (s: Session)
    ensures
        s@ == (SessionView {
            file_offset: file_len,
            ..spec_apply_lines(
                spec_init_session(file_path@, project_slug@, index_entry.deep_view(), now_ms),
                spec_lines(data@),
                now_ms,
            )
        }),
{
    let mut s = empty_session(file_path, project_slug, index_entry, now_ms);
    let _new = apply_data(&mut s, data, now_ms);
    s.file_offset = file_len;
    s
}

/// A placeholder session for a log file whose contents could not be read:
/// no messages, tail cursor at zero, metadata from the index entry alone.
pub fn placeholder_session(
    file_path: String,
    project_slug: String,
    index_entry: Option<&IndexEntry>,
    now_ms: i64,
) -> (s: Session)
    ensures
        s@ == spec_init_session(file_path@, project_slug@, index_entry.deep_view(), now_ms),
{
    empty_session(file_path, project_slug, index_entry, now_ms)
}

fn empty_session(
    file_path: String,
    project_slug: String,
    index_entry: Option<&IndexEntry>,
    now_ms: i64,
) -> (s: Session)
    ensures
        s@ == spec_init_session(file_path@, project_slug@, index_entry.deep_view(), now_ms),
{
    let id = path_stem(file_path.as_str()).to_owned();
    let s = Session {
        id,
        project_slug: project_slug,
        slug: None,
        custom_title: match index_entry {
            Some(e) => clone_opt(&e.custom_title),
            None => None,
        },
        summary: match index_entry {
            Some(e) => clone_opt(&e.summary),
            None => None,
        },
        git_branch: match index_entry {
            Some(e) => clone_opt(&e.git_branch),
            None => None,
        },
        cwd: match index_entry {
            Some(e) => clone_opt(&e.project_path),
            None => None,
        },
        messages: Vec::new(),
        last_activity: now_ms,
        file_offset: 0,
        file_path,
        total_tokens_in: 0,
        total_tokens_out: 0,
        mtime_ms: None,
    };
    proof {
        assert(s.messages.deep_view() =~= Seq::<MsgView>::empty());
    }
    s
}

/// The session after a tail read at file length `file_len` with appended
/// bytes `data`: unchanged when the file has not grown past the cursor, else
/// the per-line fold with the cursor advanced to the new length.
pub open spec fn spec_tail(s: SessionView, file_len: u64, data: Seq<u8>, now: i64) -> SessionView {
    if file_len <= s.file_offset {
        s
    } else {
        SessionView { file_offset: file_len, ..spec_apply_lines(s, spec_lines(data), now) }
    }
}

/// Read newly appended bytes into the session. When the file has not grown
/// past the tail cursor this is a no-op that returns no messages and leaves
/// the session untouched; otherwise the bytes are folded in as on full parse
/// and the cursor advances to the new file length. The cursor never moves
/// backwards.
pub fn read_new_lines(
    session: &mut Session,
    file_len: u64,
    data: &[u8],
    now_ms: i64,
) -> (new_msgs: Vec<SessionMessage>)
    ensures
        final(session)@ == spec_tail(old(session)@, file_len, data@, now_ms),
        file_len <= old(session).file_offset ==> new_msgs@.len() == 0,
        file_len > old(session).file_offset ==> new_msgs.deep_view() == spec_line_msgs(
            spec_lines(data@),
            now_ms,
        ),
{
    if file_len <= session.file_offset {
        return Vec::new();
    }
    let new_msgs = apply_data(session, data, now_ms);
    session.file_offset = file_len;
    new_msgs
}

// ----- the active-session predicate -----

/// A session is active iff its backing file's last known modification time is
/// within the recency window of `now_ms`; an unknown modification time is
/// never active. A file modified in the future counts as active, elapsed time
/// being clamped to zero.
pub open spec fn spec_active(s: SessionView, now_ms: i64) -> bool {
    match s.mtime_ms {
        Some(m) => m > now_ms || now_ms - m < ACTIVE_THRESHOLD_MS,
        None => false,
    }
}

// ----- metadata refresh -----

/// The display fields an index entry overwrites on refresh: a non-empty
/// (present) title or summary replaces the session's, an absent one leaves it
/// alone; nothing is ever cleared, and branch and working directory are never
/// touched after the initial parse.
pub open spec fn spec_refresh_one(s: SessionView, e: Option<EntryView>) -> SessionView {
    match e {
        Some(e) => SessionView {
            custom_title: if e.custom_title is Some {
                e.custom_title
            } else {
                s.custom_title
            },
            summary: if e.summary is Some {
                e.summary
            } else {
                s.summary
            },
            ..s
        },
        None => s,
    }
}

/// Apply one project's index entries to every tracked session whose id
/// appears; a later entry for the same id supersedes an earlier one.
pub fn refresh_index_metadata(sessions: &mut Vec<Session>, entries: &Vec<IndexEntry>)
    ensures
        final(sessions)@.len() == old(sessions)@.len(),
        forall|i: int| 0 <= i < old(sessions)@.len() ==> final(sessions).deep_view()[i]
            == spec_refresh_one(
                old(sessions).deep_view()[i],
                spec_last_entry(entries.deep_view(), old(sessions).deep_view()[i].id),
            ),
{
    let n = sessions.len();
    let mut i: usize = 0;
    while i < n
        invariant
            0 <= i <= n,
            n == sessions@.len(),
            sessions@.len() == old(sessions)@.len(),
            forall|k: int| i <= k < n ==> sessions.deep_view()[k] == old(
                sessions,
            ).deep_view()[k],
            forall|k: int| 0 <= k < i ==> sessions.deep_view()[k] == spec_refresh_one(
                old(sessions).deep_view()[k],
                spec_last_entry(entries.deep_view(), old(sessions).deep_view()[k].id),
            ),
        decreases n - i,
    {
        let ghost pre_seq = sessions@;
        let ghost pre_dv = sessions.deep_view();
        let ghost pre = sessions.deep_view()[i as int];
        proof {
            assert(pre == sessions@[i as int].deep_view());
            assert(pre.id == sessions@[i as int].id@);
        }
        match find_index_entry(entries, sessions[i].id.as_str()) {
            Some(e) => {
                let new_title = clone_opt(&e.custom_title);
                let new_summary = clone_opt(&e.summary);
                if new_title.is_some() {
                    sessions[i].custom_title = new_title;
                }
                if new_summary.is_some() {
                    sessions[i].summary = new_summary;
                }
                proof {
                    assert(sessions.deep_view()[i as int] == spec_refresh_one(
                        pre,
                        spec_last_entry(entries.deep_view(), pre.id),
                    ));
                }
            },
            None => {
                proof {
                    assert(spec_last_entry(entries.deep_view(), pre.id) is None);
                    assert(sessions.deep_view()[i as int] == spec_refresh_one(
                        pre,
                        spec_last_entry(entries.deep_view(), pre.id),
                    ));
                }
            },
        }
        proof {
            assert forall|k: int| 0 <= k < n && k != i implies sessions.deep_view()[k]
                == pre_dv[k] by {
                assert(sessions@[k] == pre_seq[k]);
                assert(sessions.deep_view()[k] == sessions@[k].deep_view());
                assert(pre_dv[k] == pre_seq[k].deep_view());
            }
            assert forall|k: int| 0 <= k < i + 1 implies sessions.deep_view()[k]
                == spec_refresh_one(
                old(sessions).deep_view()[k],
                spec_last_entry(entries.deep_view(), old(sessions).deep_view()[k].id),
            ) by {
                if k < i {
                    assert(sessions.deep_view()[k] == pre_dv[k]);
                } else {
                    assert(pre_dv[i as int] == old(sessions).deep_view()[i as int]);
                }
            }
        }
        i = i + 1;
    }
}

// ----- display -----

/// The first eight characters of an id, or all of it when shorter.
pub open spec fn spec_short_id(id: Seq<char>) -> Seq<char> {
    if id.len() < 8 {
        id
    } else {
        id.take(8)
    }
}

/// The display name of a session: custom title, else slug, else summary, else
/// the short id; with the git branch appended in parentheses when known.
pub open spec fn spec_display_name(s: SessionView) -> Seq<char> {
    let name = if s.custom_title is Some {
        s.custom_title->Some_0
    } else if s.slug is Some {
        s.slug->Some_0
    } else if s.summary is Some {
        s.summary->Some_0
    } else {
        spec_short_id(s.id)
    };
    match s.git_branch {
        Some(b) => name + " ("@ + b + ")"@,
        None => name,
    }
}

impl Session {
    /// The first eight characters of the session id.
    pub fn short_id(&self) -> (r: &str)
        ensures
            r@ == spec_short_id(self.id@),
    {
        let n = self.id.as_str().unicode_len();
        let k = if n < 8 {
            n
        } else {
            8
        };
        let r = self.id.as_str().substring_char(0, k);
        proof {
            if n < 8 {
                assert(self.id@.subrange(0, k as int) =~= self.id@);
            } else {
                assert(self.id@.subrange(0, k as int) =~= self.id@.take(8));
            }
        }
        r
    }

    /// The name shown for this session, with the branch when known.
    pub fn display_name(&self) -> (r: String)
        ensures
            r@ == spec_display_name(self@),
    {
        let name: &str = match &self.custom_title {
            Some(t) => t.as_str(),
            None => match &self.slug {
                Some(t) => t.as_str(),
                None => match &self.summary {
                    Some(t) => t.as_str(),
                    None => self.short_id(),
                },
            },
        };
        match &self.git_branch {
            Some(b) => {
                let mut out = name.to_owned();
                out.append(" (");
                out.append(b.as_str());
                out.append(")");
                out
            },
            None => name.to_owned(),
        }
    }

    /// Whether the backing file was modified within the recency window of
    /// `now_ms`. An unknown modification time counts as not active.
    pub fn is_active(&self, now_ms: i64) -> (r: bool)
        ensures
            r == spec_active(self@, now_ms),
    {
        match self.mtime_ms {
            Some(m) => {
                if m > now_ms {
                    true
                } else {
                    match now_ms.checked_sub(m) {
                        Some(d) => d < ACTIVE_THRESHOLD_MS,
                        None => false,
                    }
                }
            },
            None => false,
        }
    }
}

/// For a session built from scratch, the message sequence is exactly the
/// retained projection of the lines read, and — as long as the sums fit —
/// the token totals equal the sums over the messages' token fields.
pub proof fn lemma_totals_are_message_sums(s: SessionView, lines: Seq<Seq<u8>>, now: i64)
    requires
        s.messages.len() == 0,
        s.total_tokens_in == 0,
        s.total_tokens_out == 0,
        spec_tok_in_sum(spec_line_msgs(lines, now)) <= u64::MAX,
        spec_tok_out_sum(spec_line_msgs(lines, now)) <= u64::MAX,
    ensures
        spec_apply_lines(s, lines, now).messages == spec_line_msgs(lines, now),
        spec_apply_lines(s, lines, now).total_tokens_in as int == spec_tok_in_sum(
            spec_apply_lines(s, lines, now).messages,
        ),
        spec_apply_lines(s, lines, now).total_tokens_out as int == spec_tok_out_sum(
            spec_apply_lines(s, lines, now).messages,
        ),
{
    lemma_apply_lines_effect(s, lines, now);
    assert(s.messages + spec_line_msgs(lines, now) =~= spec_line_msgs(lines, now));
    lemma_token_totals(s, lines, now);
}

/// A tail read at a file length not beyond the cursor leaves the session
/// untouched, and so does a second such read: no bytes are re-read and the
/// cursor never moves.
pub proof fn lemma_tail_without_growth(
    s: SessionView,
    file_len: u64,
    d1: Seq<u8>,
    d2: Seq<u8>,
    now1: i64,
    now2: i64,
)
    requires
        file_len <= s.file_offset,
    ensures
        spec_tail(s, file_len, d1, now1) == s,
        spec_tail(spec_tail(s, file_len, d1, now1), file_len, d2, now2) == s,
{
}

/// Whether a session id carries the reserved sub-agent prefix; such files are
/// excluded from discovery.
pub fn is_subagent_id(id: &str) -> (r: bool)
    ensures
        r == (id@.len() >= 6 && id@.take(6) == "agent-"@),
{
    let n = id.unicode_len();
    if n < 6 {
        return false;
    }
    let head = id.substring_char(0, 6);
    proof {
        assert(id@.subrange(0, 6) =~= id@.take(6));
    }
    crate::strutil::str_eq(head, "agent-")
}

} // verus!
