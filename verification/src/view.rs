//! The view-state controller: keeps the session store and the derived,
//! visible ordering — sorted by latest activity, deduplicated by slug,
//! filtered by recency and free text — together with the selection, focus,
//! scroll and filter state, and decides how an external change notification
//! is handled.
//!
//! The caller runs the event loop and performs all I/O; every decision and
//! every state change is made here, on plain values.

use vstd::prelude::*;
use vstd::multiset::Multiset;

use crate::session::{
    spec_active, spec_display_name, spec_last_entry, spec_tail, IndexEntry, Session, SessionView,
};
use crate::strutil::{clone_opt, contains_seq, lex_le, lower_of, spec_file_name, spec_stem_of};

verus! {

/// Milliseconds between two periodic metadata refreshes.
pub const REFRESH_INTERVAL_MS: i64 = 10_000;

/// Which panel has keyboard focus.
#[derive(Debug, Clone, Copy, PartialEq, Eq, Structural)]
pub enum FocusPanel {
    Sessions,
    Chat,
}

/// A change notification from the file-watching layer: a path and whether it
/// was modified or created.
pub enum WatchEvent {
    FileModified(String),
    FileCreated(String),
}

/// A decoded key press, as the input layer hands it in.
#[derive(Debug, Clone, Copy, PartialEq, Eq, Structural)]
pub enum KeyInput {
    Char(char),
    CtrlC,
    Tab,
    Up,
    Down,
    Enter,
    Esc,
    Backspace,
    PageUp,
    PageDown,
    Other,
}

/// What the caller must do after a key press is handled: nothing, a forced
/// full rescan, or draining queued input after a focus change.
#[derive(Debug, Clone, Copy, PartialEq, Eq, Structural)]
pub enum AppCommand {
    Nothing,
    Refresh,
    DrainInput,
}

/// How a change notification is to be handled: re-read every project's
/// metadata index, tail the tracked session at an index, discover the named
/// file as a new session, or nothing.
#[derive(Debug, Clone, PartialEq, Eq)]
pub enum EventAction {
    RefreshMetadata,
    TailSession(usize),
    Discover(String),
    Ignore,
}

/// Mathematical view of an event action.
pub enum PlanView {
    RefreshMetadata,
    TailSession(int),
    Discover(Seq<char>),
    Ignore,
}

impl View for EventAction {
    type V = PlanView;

    open spec fn view(&self) -> PlanView {
        match self {
            EventAction::RefreshMetadata => PlanView::RefreshMetadata,
            EventAction::TailSession(i) => PlanView::TailSession(*i as int),
            EventAction::Discover(p) => PlanView::Discover(p@),
            EventAction::Ignore => PlanView::Ignore,
        }
    }
}

/// The path named by a notification.
pub open spec fn spec_evt_path(e: WatchEvent) -> Seq<char> {
    match e {
        WatchEvent::FileModified(p) => p@,
        WatchEvent::FileCreated(p) => p@,
    }
}

// ----- the session store as a map -----

/// The index of the session with the given id, searching from the end, or -1
/// when there is none.
pub open spec fn spec_find_idx(ss: Seq<SessionView>, id: Seq<char>) -> int
    decreases ss.len(),
{
    if ss.len() == 0 {
        -1
    } else if ss.last().id == id {
        ss.len() - 1
    } else {
        spec_find_idx(ss.drop_last(), id)
    }
}

/// The session with the given id, if tracked.
pub open spec fn spec_lookup(ss: Seq<SessionView>, id: Seq<char>) -> Option<SessionView> {
    let i = spec_find_idx(ss, id);
    if i >= 0 {
        Some(ss[i])
    } else {
        None
    }
}

pub proof fn lemma_find_idx(ss: Seq<SessionView>, id: Seq<char>)
    ensures
        -1 <= spec_find_idx(ss, id) < ss.len(),
        spec_find_idx(ss, id) >= 0 ==> ss[spec_find_idx(ss, id)].id == id,
        spec_find_idx(ss, id) == -1 ==> forall|k: int| 0 <= k < ss.len() ==> (
        #[trigger] ss[k]).id != id,
    decreases ss.len(),
{
    if ss.len() == 0 {
    } else if ss.last().id == id {
    } else {
        let t = ss.drop_last();
        lemma_find_idx(t, id);
        assert(forall|k: int| 0 <= k < t.len() ==> t[k] == ss[k]);
        if spec_find_idx(ss, id) == -1 {
            assert forall|k: int| 0 <= k < ss.len() implies (#[trigger] ss[k]).id != id by {
                if k < ss.len() - 1 {
                    assert(t[k].id != id);
                } else {
                    assert(ss[k] == ss.last());
                }
            }
        }
    }
}

/// Find the position of the session with this id.
pub fn find_session(sessions: &Vec<Session>, id: &str) -> (r: Option<usize>)
    ensures
        match r {
            Some(i) => i == spec_find_idx(sessions.deep_view(), id@) && i < sessions@.len(),
            None => spec_find_idx(sessions.deep_view(), id@) == -1,
        },
{
    let n = sessions.len();
    proof {
        assert(sessions.deep_view().take(n as int) =~= sessions.deep_view());
    }
    let mut j: usize = n;
    while j > 0
        invariant
            0 <= j <= n,
            n == sessions@.len(),
            spec_find_idx(sessions.deep_view(), id@) == spec_find_idx(
                sessions.deep_view().take(j as int),
                id@,
            ),
        decreases j,
    {
        proof {
            assert(sessions.deep_view()[j - 1] == sessions@[j - 1].deep_view());
            assert(sessions.deep_view().take(j as int).last() == sessions.deep_view()[j - 1]);
            assert(sessions.deep_view().take(j as int).drop_last() =~= sessions.deep_view().take(
                j - 1,
            ));
        }
        let e = &sessions[j - 1];
        if crate::strutil::str_eq(e.id.as_str(), id) {
            return Some(j - 1);
        }
        j = j - 1;
    }
    proof {
        assert(sessions.deep_view().take(0) =~= Seq::<SessionView>::empty());
    }
    None
}

// ----- sorting -----

/// Whether `a` may stand at or before `b` in the visible order: later
/// activity first, ties resolved by id.
pub open spec fn pair_before(a: (i64, Seq<char>), b: (i64, Seq<char>)) -> bool {
    a.0 > b.0 || (a.0 == b.0 && lex_le(a.1, b.1))
}

/// Insert a pair into an already ordered sequence, before the first element
/// it may precede.
pub open spec fn spec_insert_pair(x: (i64, Seq<char>), s: Seq<(i64, Seq<char>)>) -> Seq<
    (i64, Seq<char>),
>
    decreases s.len(),
{
    if s.len() == 0 {
        seq![x]
    } else if pair_before(x, s[0]) {
        seq![x] + s
    } else {
        seq![s[0]] + spec_insert_pair(x, s.drop_first())
    }
}

/// Insertion sort of (activity, id) pairs.
pub open spec fn spec_sort_pairs(s: Seq<(i64, Seq<char>)>) -> Seq<(i64, Seq<char>)>
    decreases s.len(),
{
    if s.len() == 0 {
        s
    } else {
        spec_insert_pair(s.last(), spec_sort_pairs(s.drop_last()))
    }
}

/// The (activity, id) pair of each tracked session.
pub open spec fn spec_pairs(ss: Seq<SessionView>) -> Seq<(i64, Seq<char>)> {
    ss.map_values(|s: SessionView| (s.last_activity, s.id))
}

/// All tracked ids, ordered by latest activity first; equal timestamps are
/// resolved by id, so that the order is stable across recomputes.
pub open spec fn spec_sorted_ids(ss: Seq<SessionView>) -> Seq<Seq<char>> {
    spec_sort_pairs(spec_pairs(ss)).map_values(|p: (i64, Seq<char>)| p.1)
}

proof fn lemma_insert_pair_at(x: (i64, Seq<char>), s: Seq<(i64, Seq<char>)>, j: int)
    requires
        0 <= j <= s.len(),
        forall|k: int| 0 <= k < j ==> !pair_before(x, #[trigger] s[k]),
        j == s.len() || pair_before(x, s[j]),
    ensures
        spec_insert_pair(x, s) == s.take(j) + seq![x] + s.skip(j),
    decreases j,
{
    if j == 0 {
        if s.len() == 0 {
            assert(spec_insert_pair(x, s) =~= s.take(0) + seq![x] + s.skip(0));
        } else {
            assert(pair_before(x, s[0]));
            assert(seq![x] + s =~= s.take(0) + seq![x] + s.skip(0));
        }
    } else {
        assert(!pair_before(x, s[0]));
        let t = s.drop_first();
        assert(forall|k: int| 0 <= k < j - 1 ==> !pair_before(x, #[trigger] t[k]));
        lemma_insert_pair_at(x, t, j - 1);
        assert(seq![s[0]] + (t.take(j - 1) + seq![x] + t.skip(j - 1)) =~= s.take(j) + seq![x]
            + s.skip(j));
    }
}

/// Whether a pair sequence is ordered.
pub open spec fn pairs_sorted(s: Seq<(i64, Seq<char>)>) -> bool {
    forall|i: int, j: int| 0 <= i < j < s.len() ==> pair_before(#[trigger] s[i], #[trigger] s[j])
}

/// Inserting into an ordered sequence keeps it ordered and adds exactly the
/// new element.
pub proof fn lemma_insert_pair_sorted(x: (i64, Seq<char>), s: Seq<(i64, Seq<char>)>)
    requires
        pairs_sorted(s),
    ensures
        pairs_sorted(spec_insert_pair(x, s)),
        spec_insert_pair(x, s).to_multiset() == s.to_multiset().insert(x),
        spec_insert_pair(x, s).len() == s.len() + 1,
    decreases s.len(),
{
    broadcast use vstd::seq_lib::group_seq_properties;
    broadcast use vstd::seq_lib::group_to_multiset_ensures;

    if s.len() == 0 {
        assert(spec_insert_pair(x, s) =~= seq![x]);
        assert(s.push(x) =~= seq![x]);
        assert(seq![x].to_multiset() =~= s.to_multiset().insert(x));
    } else if pair_before(x, s[0]) {
        let r = seq![x] + s;
        assert forall|i: int, j: int| 0 <= i < j < r.len() implies pair_before(
            #[trigger] r[i],
            #[trigger] r[j],
        ) by {
            if i == 0 {
                if j > 1 {
                    assert(pair_before(s[0], s[j - 1]));
                }
                crate::strutil::lemma_lex_le_total(x.1, s[0].1);
                if j == 1 {
                    assert(pair_before(x, s[0]));
                } else {
                    lemma_pair_before_trans(x, s[0], s[j - 1]);
                }
            } else {
                assert(pair_before(s[i - 1], s[j - 1]));
            }
        }
        assert(r =~= seq![x] + s);
        vstd::seq_lib::lemma_multiset_commutative(seq![x], s);
        assert(Seq::<(i64, Seq<char>)>::empty().push(x) =~= seq![x]);
        assert(r.to_multiset() =~= s.to_multiset().insert(x)) by {
            assert(seq![x].to_multiset() =~= Seq::<(i64, Seq<char>)>::empty().to_multiset().insert(
                x,
            ));
            assert(Seq::<(i64, Seq<char>)>::empty().to_multiset() =~= Multiset::<
                (i64, Seq<char>),
            >::empty());
        }
    } else {
        let t = s.drop_first();
        assert(forall|i: int, j: int|
            0 <= i < j < t.len() ==> pair_before(#[trigger] t[i], #[trigger] t[j]));
        lemma_insert_pair_sorted(x, t);
        let r0 = spec_insert_pair(x, t);
        let r = seq![s[0]] + r0;
        assert forall|i: int, j: int| 0 <= i < j < r.len() implies pair_before(
            #[trigger] r[i],
            #[trigger] r[j],
        ) by {
            if i == 0 {
                lemma_insert_members(x, t, r0);
                assert(r[j] == r0[j - 1]);
                if r0[j - 1] == x {
                    lemma_pair_before_not(x, s[0]);
                } else {
                    assert(t.to_multiset().contains(r0[j - 1]));
                    let k = choose|k: int| 0 <= k < t.len() && t[k] == r0[j - 1];
                    assert(pair_before(s[0], s[k + 1]));
                }
            } else {
                assert(pair_before(r0[i - 1], r0[j - 1]));
            }
        }
        assert(r.to_multiset() =~= s.to_multiset().insert(x)) by {
            assert(s =~= seq![s[0]] + t);
            vstd::seq_lib::lemma_multiset_commutative(seq![s[0]], t);
            vstd::seq_lib::lemma_multiset_commutative(seq![s[0]], r0);
            assert(s.to_multiset() =~= seq![s[0]].to_multiset().add(t.to_multiset()));
            assert(r.to_multiset() =~= seq![s[0]].to_multiset().add(r0.to_multiset()));
            assert(r0.to_multiset() =~= t.to_multiset().insert(x));
            assert(seq![s[0]].to_multiset().add(t.to_multiset().insert(x))
                =~= seq![s[0]].to_multiset().add(t.to_multiset()).insert(x));
        }
    }
}

/// Every element of an insertion result is the inserted element or one of
/// the input's.
proof fn lemma_insert_members(
    x: (i64, Seq<char>),
    s: Seq<(i64, Seq<char>)>,
    r: Seq<(i64, Seq<char>)>,
)
    requires
        r == spec_insert_pair(x, s),
    ensures
        forall|j: int| 0 <= j < r.len() ==> r[j] == x || s.to_multiset().contains(#[trigger] r[j]),
    decreases s.len(),
{
    broadcast use vstd::seq_lib::group_seq_properties;

    if s.len() == 0 {
    } else if pair_before(x, s[0]) {
        assert forall|j: int| 0 <= j < r.len() implies r[j] == x || s.to_multiset().contains(
            #[trigger] r[j],
        ) by {
            if j > 0 {
                assert(r[j] == s[j - 1]);
                assert(s.to_multiset().contains(s[j - 1]));
            }
        }
    } else {
        let t = s.drop_first();
        let r0 = spec_insert_pair(x, t);
        lemma_insert_members(x, t, r0);
        assert forall|j: int| 0 <= j < r.len() implies r[j] == x || s.to_multiset().contains(
            #[trigger] r[j],
        ) by {
            if j == 0 {
                assert(r[0] == s[0]);
                assert(s.to_multiset().contains(s[0]));
            } else {
                assert(r[j] == r0[j - 1]);
                if r0[j - 1] != x {
                    assert(t.to_multiset().contains(r0[j - 1]));
                    let k = choose|k: int| 0 <= k < t.len() && t[k] == r0[j - 1];
                    assert(s[k + 1] == r0[j - 1]);
                    assert(s.to_multiset().contains(s[k + 1]));
                }
            }
        }
    }
}

/// The order is total: when `a` does not stand before `b`, `b` stands before
/// `a`.
proof fn lemma_pair_before_not(a: (i64, Seq<char>), b: (i64, Seq<char>))
    requires
        !pair_before(a, b),
    ensures
        pair_before(b, a),
{
    crate::strutil::lemma_lex_le_total(a.1, b.1);
}

/// The order is transitive.
proof fn lemma_pair_before_trans(a: (i64, Seq<char>), b: (i64, Seq<char>), c: (i64, Seq<char>))
    requires
        pair_before(a, b),
        pair_before(b, c),
    ensures
        pair_before(a, c),
{
    if a.0 == b.0 && b.0 == c.0 {
        lemma_lex_le_trans(a.1, b.1, c.1);
    }
}

proof fn lemma_lex_le_trans(a: Seq<char>, b: Seq<char>, c: Seq<char>)
    requires
        lex_le(a, b),
        lex_le(b, c),
    ensures
        lex_le(a, c),
    decreases a.len(),
{
    if a.len() == 0 {
    } else if b.len() == 0 {
    } else if c.len() == 0 {
    } else {
        if a[0] == b[0] && b[0] == c[0] {
            lemma_lex_le_trans(a.drop_first(), b.drop_first(), c.drop_first());
        }
    }
}

/// The sorted pairs are ordered and are a permutation of the input.
pub proof fn lemma_sort_pairs_sorted(s: Seq<(i64, Seq<char>)>)
    ensures
        pairs_sorted(spec_sort_pairs(s)),
        spec_sort_pairs(s).to_multiset() == s.to_multiset(),
        spec_sort_pairs(s).len() == s.len(),
    decreases s.len(),
{
    broadcast use vstd::seq_lib::group_seq_properties;

    if s.len() == 0 {
    } else {
        let t = s.drop_last();
        lemma_sort_pairs_sorted(t);
        lemma_insert_pair_sorted(s.last(), spec_sort_pairs(t));
        assert(spec_sort_pairs(s).to_multiset() == t.to_multiset().insert(s.last()));
        assert(s =~= t.push(s.last()));
        assert(s.to_multiset() == t.push(s.last()).to_multiset());
        assert(t.push(s.last()).to_multiset() == t.to_multiset().insert(s.last()));
    }
}

/// Whether one pair may precede another, executably.
fn pair_before_exec(a: &(i64, String), b: &(i64, String)) -> (r: bool)
    ensures
        r == pair_before(a.deep_view(), b.deep_view()),
{
    if a.0 > b.0 {
        true
    } else if a.0 == b.0 {
        crate::strutil::str_lex_le(a.1.as_str(), b.1.as_str())
    } else {
        false
    }
}

/// All tracked session ids, most recent activity first; ties are resolved by
/// id so the order is stable.
pub fn sort_session_ids(sessions: &Vec<Session>) -> (r: Vec<String>)
    ensures
        r.deep_view() == spec_sorted_ids(sessions.deep_view()),
{
    let n = sessions.len();
    let mut pairs: Vec<(i64, String)> = Vec::new();
    let mut i: usize = 0;
    proof {
        assert(pairs.deep_view() =~= spec_pairs(sessions.deep_view().take(0)));
    }
    while i < n
        invariant
            0 <= i <= n,
            n == sessions@.len(),
            pairs@.len() == i,
            pairs.deep_view() == spec_pairs(sessions.deep_view().take(i as int)),
        decreases n - i,
    {
        proof {
            assert(sessions.deep_view()[i as int] == sessions@[i as int].deep_view());
        }
        let ghost pre_seq = pairs@;
        let ghost pre_dv = pairs.deep_view();
        let s = &sessions[i];
        pairs.push((s.last_activity, s.id.clone()));
        proof {
            let dv = sessions.deep_view();
            assert forall|kk: int| 0 <= kk < i + 1 implies pairs.deep_view()[kk] == spec_pairs(
                dv.take(i + 1),
            )[kk] by {
                assert(pairs.deep_view()[kk] == pairs@[kk].deep_view());
                assert(dv.take(i + 1)[kk] == dv[kk]);
                if kk < i {
                    assert(pairs@[kk] == pre_seq[kk]);
                    assert(pre_dv[kk] == pre_seq[kk].deep_view());
                    assert(pre_dv[kk] == spec_pairs(dv.take(i as int))[kk]);
                    assert(spec_pairs(dv.take(i as int))[kk] == (dv[kk].last_activity, dv[kk].id));
                }
            }
            assert(pairs.deep_view() =~= spec_pairs(dv.take(i + 1)));
        }
        i = i + 1;
    }
    proof {
        assert(sessions.deep_view().take(n as int) =~= sessions.deep_view());
    }
    // insertion sort
    let mut sorted: Vec<(i64, String)> = Vec::new();
    let m = pairs.len();
    let mut k: usize = 0;
    proof {
        assert(pairs.deep_view().take(0) =~= Seq::<(i64, Seq<char>)>::empty());
    }
    while k < m
        invariant
            0 <= k <= m,
            m == pairs@.len(),
            pairs.deep_view() == spec_pairs(sessions.deep_view()),
            sorted@.len() == k,
            sorted.deep_view() == spec_sort_pairs(pairs.deep_view().take(k as int)),
        decreases m - k,
    {
        proof {
            assert(pairs.deep_view()[k as int] == pairs@[k as int].deep_view());
            assert(pairs.deep_view().take(k + 1).drop_last() =~= pairs.deep_view().take(k as int));
            assert(pairs.deep_view().take(k + 1).last() == pairs.deep_view()[k as int]);
        }
        let p: (i64, String) = (pairs[k].0, pairs[k].1.clone());
        proof {
            assert(p.deep_view() == pairs.deep_view()[k as int]);
        }
        let len = sorted.len();
        let mut j: usize = 0;
        while j < len && !pair_before_exec(&p, &sorted[j])
            invariant
                0 <= j <= len,
                len == sorted@.len(),
                p.deep_view() == pairs.deep_view()[k as int],
                sorted.deep_view() == spec_sort_pairs(pairs.deep_view().take(k as int)),
                forall|q: int| 0 <= q < j ==> !pair_before(
                    p.deep_view(),
                    #[trigger] sorted.deep_view()[q],
                ),
            decreases len - j,
        {
            proof {
                assert(sorted.deep_view()[j as int] == sorted@[j as int].deep_view());
            }
            j = j + 1;
        }
        proof {
            if j < len {
                assert(sorted.deep_view()[j as int] == sorted@[j as int].deep_view());
            }
            lemma_insert_pair_at(p.deep_view(), sorted.deep_view(), j as int);
        }
        let ghost pre_seq = sorted@;
        let ghost pre_dv = sorted.deep_view();
        sorted.insert(j, p);
        proof {
            assert forall|kk: int| 0 <= kk < pre_seq.len() + 1 implies sorted.deep_view()[kk] == (
            pre_dv.take(j as int) + seq![p.deep_view()] + pre_dv.skip(j as int))[kk] by {
                assert(sorted.deep_view()[kk] == sorted@[kk].deep_view());
                if kk < j {
                    assert(sorted@[kk] == pre_seq[kk]);
                    assert(pre_dv[kk] == pre_seq[kk].deep_view());
                } else if kk > j {
                    assert(sorted@[kk] == pre_seq[kk - 1]);
                    assert(pre_dv[kk - 1] == pre_seq[kk - 1].deep_view());
                }
            }
            assert(sorted.deep_view() =~= pre_dv.take(j as int) + seq![p.deep_view()]
                + pre_dv.skip(j as int));
        }
        k = k + 1;
    }
    proof {
        assert(pairs.deep_view().take(m as int) =~= pairs.deep_view());
    }
    // project to the ids
    let mut ids: Vec<String> = Vec::new();
    let sn = sorted.len();
    let mut q: usize = 0;
    proof {
        assert(ids.deep_view() =~= sorted.deep_view().take(0).map_values(
            |pp: (i64, Seq<char>)| pp.1,
        ));
    }
    while q < sn
        invariant
            0 <= q <= sn,
            sn == sorted@.len(),
            ids@.len() == q,
            sorted.deep_view() == spec_sort_pairs(spec_pairs(sessions.deep_view())),
            ids.deep_view() == sorted.deep_view().take(q as int).map_values(
                |pp: (i64, Seq<char>)| pp.1,
            ),
        decreases sn - q,
    {
        proof {
            assert(sorted.deep_view()[q as int] == sorted@[q as int].deep_view());
        }
        let ghost pre_seq = ids@;
        let ghost pre_dv = ids.deep_view();
        ids.push(sorted[q].1.clone());
        proof {
            let f = |pp: (i64, Seq<char>)| pp.1;
            let target = sorted.deep_view().take(q + 1).map_values(f);
            assert forall|kk: int| 0 <= kk < q + 1 implies ids.deep_view()[kk] == target[kk] by {
                assert(ids.deep_view()[kk] == ids@[kk].deep_view());
                assert(target[kk] == f(sorted.deep_view().take(q + 1)[kk]));
                assert(sorted.deep_view().take(q + 1)[kk] == sorted.deep_view()[kk]);
                if kk < q {
                    assert(ids@[kk] == pre_seq[kk]);
                    assert(pre_dv[kk] == pre_seq[kk].deep_view());
                    assert(pre_dv[kk] == sorted.deep_view().take(q as int).map_values(f)[kk]);
                }
            }
            assert(ids.deep_view() =~= target);
        }
        q = q + 1;
    }
    proof {
        assert(sorted.deep_view().take(sn as int) =~= sorted.deep_view());
    }
    ids
}

// ----- deduplication by slug -----

/// The id kept for a slug, if the slug was seen.
pub open spec fn seen_kept(seen: Seq<(Seq<char>, Seq<char>)>, slug: Seq<char>) -> Option<Seq<char>>
    decreases seen.len(),
{
    if seen.len() == 0 {
        None
    } else if seen[0].0 == slug {
        Some(seen[0].1)
    } else {
        seen_kept(seen.drop_first(), slug)
    }
}

/// Migrate a duplicate's custom title onto the kept session, when the kept
/// session is tracked and has none yet.
pub open spec fn spec_migrate(
    ss: Seq<SessionView>,
    kept_id: Seq<char>,
    title: Option<Seq<char>>,
) -> Seq<SessionView> {
    let ki = spec_find_idx(ss, kept_id);
    if ki >= 0 && ss[ki].custom_title is None {
        ss.update(ki, SessionView { custom_title: title, ..ss[ki] })
    } else {
        ss
    }
}

/// One pass over the ordered ids: sessions sharing a non-empty slug collapse
/// to the earliest one; before a duplicate is dropped, its custom title moves
/// onto the kept session if that one has none. Sessions without a slug, and
/// ids without a session, are kept. Returns the kept ids and the store after
/// the title migrations.
pub open spec fn spec_dedup(
    ids: Seq<Seq<char>>,
    seen: Seq<(Seq<char>, Seq<char>)>,
    ss: Seq<SessionView>,
) -> (Seq<Seq<char>>, Seq<SessionView>)
    decreases ids.len(),
{
    if ids.len() == 0 {
        (Seq::empty(), ss)
    } else {
        let id = ids[0];
        let rest = ids.drop_first();
        match spec_lookup(ss, id) {
            Some(sv) => match sv.slug {
                Some(slug) => match seen_kept(seen, slug) {
                    Some(kept_id) => {
                        let ss2 = if sv.custom_title is Some {
                            spec_migrate(ss, kept_id, sv.custom_title)
                        } else {
                            ss
                        };
                        spec_dedup(rest, seen, ss2)
                    },
                    None => {
                        let r = spec_dedup(rest, seen.push((slug, id)), ss);
                        (seq![id] + r.0, r.1)
                    },
                },
                None => {
                    let r = spec_dedup(rest, seen, ss);
                    (seq![id] + r.0, r.1)
                },
            },
            None => {
                let r = spec_dedup(rest, seen, ss);
                (seq![id] + r.0, r.1)
            },
        }
    }
}

/// The id kept for a slug, if the slug was seen.
fn seen_lookup(seen: &Vec<(String, String)>, slug: &str) -> (r: Option<usize>)
    ensures
        match r {
            Some(i) => i < seen@.len() && seen_kept(seen.deep_view(), slug@) == Some(
                seen.deep_view()[i as int].1,
            ),
            None => seen_kept(seen.deep_view(), slug@) is None,
        },
{
    let n = seen.len();
    let mut i: usize = 0;
    proof {
        assert(seen.deep_view().skip(0) =~= seen.deep_view());
    }
    while i < n
        invariant
            0 <= i <= n,
            n == seen@.len(),
            seen_kept(seen.deep_view(), slug@) == seen_kept(seen.deep_view().skip(i as int), slug@),
        decreases n - i,
    {
        proof {
            assert(seen.deep_view()[i as int] == seen@[i as int].deep_view());
            assert(seen.deep_view().skip(i as int)[0] == seen.deep_view()[i as int]);
            assert(seen.deep_view().skip(i as int).drop_first() =~= seen.deep_view().skip(i + 1));
        }
        if crate::strutil::str_eq(seen[i].0.as_str(), slug) {
            return Some(i);
        }
        i = i + 1;
    }
    proof {
        assert(seen.deep_view().skip(n as int) =~= Seq::<(Seq<char>, Seq<char>)>::empty());
    }
    None
}

/// Collapse duplicate slugs in the ordered id list, migrating custom titles
/// onto the kept sessions.
fn dedup_visible(sessions: &mut Vec<Session>, ids: Vec<String>) -> (kept: Vec<String>)
    ensures
        kept.deep_view() == spec_dedup(
            ids.deep_view(),
            Seq::empty(),
            old(sessions).deep_view(),
        ).0,
        final(sessions).deep_view() == spec_dedup(
            ids.deep_view(),
            Seq::empty(),
            old(sessions).deep_view(),
        ).1,
{
    let mut kept: Vec<String> = Vec::new();
    let mut seen: Vec<(String, String)> = Vec::new();
    let n = ids.len();
    let mut i: usize = 0;
    let ghost target = spec_dedup(ids.deep_view(), Seq::empty(), old(sessions).deep_view());
    proof {
        assert(ids.deep_view().skip(0) =~= ids.deep_view());
        assert(seen.deep_view() =~= Seq::<(Seq<char>, Seq<char>)>::empty());
        assert(kept.deep_view() =~= Seq::<Seq<char>>::empty());
        assert(Seq::<Seq<char>>::empty() + target.0 =~= target.0);
    }
    while i < n
        invariant
            0 <= i <= n,
            n == ids@.len(),
            target == spec_dedup(ids.deep_view(), Seq::empty(), old(sessions).deep_view()),
            target.0 == kept.deep_view() + spec_dedup(
                ids.deep_view().skip(i as int),
                seen.deep_view(),
                sessions.deep_view(),
            ).0,
            target.1 == spec_dedup(
                ids.deep_view().skip(i as int),
                seen.deep_view(),
                sessions.deep_view(),
            ).1,
        decreases n - i,
    {
        proof {
            assert(ids.deep_view()[i as int] == ids@[i as int].deep_view());
            assert(ids.deep_view().skip(i as int)[0] == ids.deep_view()[i as int]);
            assert(ids.deep_view().skip(i as int).drop_first() =~= ids.deep_view().skip(i + 1));
        }
        let ghost rem = ids.deep_view().skip(i as int);
        let ghost pre_store = sessions.deep_view();
        let ghost pre_seen = seen.deep_view();
        let ghost pre_kept = kept.deep_view();
        let id = &ids[i];
        match find_session(sessions, id.as_str()) {
            Some(si) => {
                proof {
                    assert(spec_lookup(pre_store, id@) == Some(pre_store[si as int]));
                    assert(sessions.deep_view()[si as int] == sessions@[si as int].deep_view());
                }
                let slug = clone_opt(&sessions[si].slug);
                match slug {
                    Some(slug) => {
                        match seen_lookup(&seen, slug.as_str()) {
                            Some(sj) => {
                                proof {
                                    assert(seen.deep_view()[sj as int] == seen@[
                                        sj as int].deep_view());
                                }
                                let kept_id = seen[sj].1.clone();
                                let ct = clone_opt(&sessions[si].custom_title);
                                if ct.is_some() {
                                    match find_session(sessions, kept_id.as_str()) {
                                        Some(ki) => {
                                            proof {
                                                assert(sessions.deep_view()[ki as int]
                                                    == sessions@[ki as int].deep_view());
                                            }
                                            let ghost ps = sessions@;
                                            let ghost pd = sessions.deep_view();
                                            if sessions[ki].custom_title.is_none() {
                                                sessions[ki].custom_title = ct;
                                                proof {
                                                    assert forall|kk: int|
                                                        0 <= kk < ps.len() && kk != ki implies
                                                        sessions.deep_view()[kk] == pd[kk] by {
                                                        assert(sessions@[kk] == ps[kk]);
                                                        assert(sessions.deep_view()[kk]
                                                            == sessions@[kk].deep_view());
                                                        assert(pd[kk] == ps[kk].deep_view());
                                                    }
                                                    assert(sessions.deep_view() =~= spec_migrate(
                                                        pre_store,
                                                        kept_id@,
                                                        pre_store[si as int].custom_title,
                                                    ));
                                                }
                                            } else {
                                                proof {
                                                    assert(sessions.deep_view() =~= spec_migrate(
                                                        pre_store,
                                                        kept_id@,
                                                        pre_store[si as int].custom_title,
                                                    ));
                                                }
                                            }
                                        },
                                        None => {
                                            proof {
                                                assert(sessions.deep_view() =~= spec_migrate(
                                                    pre_store,
                                                    kept_id@,
                                                    pre_store[si as int].custom_title,
                                                ));
                                            }
                                        },
                                    }
                                }
                                proof {
                                    assert(spec_dedup(rem, pre_seen, pre_store)
                                        == spec_dedup(
                                        rem.drop_first(),
                                        pre_seen,
                                        sessions.deep_view(),
                                    ));
                                }
                            },
                            None => {
                                seen.push((slug, id.clone()));
                                kept.push(id.clone());
                                proof {
                                    assert(seen.deep_view() =~= pre_seen.push(
                                        (pre_store[si as int].slug->Some_0, id@),
                                    ));
                                    assert(kept.deep_view() =~= pre_kept.push(id@));
                                    let r = spec_dedup(
                                        rem.drop_first(),
                                        seen.deep_view(),
                                        pre_store,
                                    );
                                    assert(spec_dedup(rem, pre_seen, pre_store).0 == seq![id@]
                                        + r.0);
                                    assert(pre_kept + (seq![id@] + r.0) =~= pre_kept.push(id@)
                                        + r.0);
                                }
                            },
                        }
                    },
                    None => {
                        kept.push(id.clone());
                        proof {
                            assert(kept.deep_view() =~= pre_kept.push(id@));
                            let r = spec_dedup(rem.drop_first(), pre_seen, pre_store);
                            assert(spec_dedup(rem, pre_seen, pre_store).0 == seq![id@] + r.0);
                            assert(pre_kept + (seq![id@] + r.0) =~= pre_kept.push(id@) + r.0);
                        }
                    },
                }
            },
            None => {
                kept.push(id.clone());
                proof {
                    assert(spec_lookup(pre_store, id@) is None);
                    assert(kept.deep_view() =~= pre_kept.push(id@));
                    let r = spec_dedup(rem.drop_first(), pre_seen, pre_store);
                    assert(spec_dedup(rem, pre_seen, pre_store).0 == seq![id@] + r.0);
                    assert(pre_kept + (seq![id@] + r.0) =~= pre_kept.push(id@) + r.0);
                }
            },
        }
        i = i + 1;
    }
    proof {
        assert(ids.deep_view().skip(n as int) =~= Seq::<Seq<char>>::empty());
        assert(kept.deep_view() + Seq::<Seq<char>>::empty() =~= kept.deep_view());
    }
    kept
}

// ----- filtering -----

/// The ids whose sessions are active, in order; an id without a session is
/// dropped.
pub open spec fn spec_keep_active(ids: Seq<Seq<char>>, ss: Seq<SessionView>, now: i64) -> Seq<
    Seq<char>,
>
    decreases ids.len(),
{
    if ids.len() == 0 {
        ids
    } else {
        let pre = spec_keep_active(ids.drop_last(), ss, now);
        if match spec_lookup(ss, ids.last()) {
            Some(sv) => spec_active(sv, now),
            None => false,
        } {
            pre.push(ids.last())
        } else {
            pre
        }
    }
}

/// Whether a session matches the free-text filter: the lowercased filter
/// occurs in the lowercased display name, in the raw id, or in the lowercased
/// summary.
pub open spec fn spec_matches_filter(s: SessionView, f: Seq<char>) -> bool {
    let fl = lower_of(f);
    contains_seq(lower_of(spec_display_name(s)), fl) || contains_seq(s.id, fl) || contains_seq(
        lower_of(
            match s.summary {
                Some(x) => x,
                None => Seq::empty(),
            },
        ),
        fl,
    )
}

/// The ids whose sessions match the filter, in order; an id without a session
/// is dropped.
pub open spec fn spec_keep_matching(ids: Seq<Seq<char>>, ss: Seq<SessionView>, f: Seq<char>) -> Seq<
    Seq<char>,
>
    decreases ids.len(),
{
    if ids.len() == 0 {
        ids
    } else {
        let pre = spec_keep_matching(ids.drop_last(), ss, f);
        if match spec_lookup(ss, ids.last()) {
            Some(sv) => spec_matches_filter(sv, f),
            None => false,
        } {
            pre.push(ids.last())
        } else {
            pre
        }
    }
}

/// Keep the ids of active sessions.
fn retain_active(sessions: &Vec<Session>, ids: Vec<String>, now_ms: i64) -> (r: Vec<String>)
    ensures
        r.deep_view() == spec_keep_active(ids.deep_view(), sessions.deep_view(), now_ms),
{
    let mut out: Vec<String> = Vec::new();
    let n = ids.len();
    let mut i: usize = 0;
    proof {
        assert(out.deep_view() =~= spec_keep_active(
            ids.deep_view().take(0),
            sessions.deep_view(),
            now_ms,
        ));
    }
    while i < n
        invariant
            0 <= i <= n,
            n == ids@.len(),
            out.deep_view() == spec_keep_active(
                ids.deep_view().take(i as int),
                sessions.deep_view(),
                now_ms,
            ),
        decreases n - i,
    {
        proof {
            assert(ids.deep_view()[i as int] == ids@[i as int].deep_view());
            assert(ids.deep_view().take(i + 1).drop_last() =~= ids.deep_view().take(i as int));
            assert(ids.deep_view().take(i + 1).last() == ids.deep_view()[i as int]);
        }
        let id = &ids[i];
        let keep: bool = match find_session(sessions, id.as_str()) {
            Some(si) => {
                proof {
                    assert(sessions.deep_view()[si as int] == sessions@[si as int].deep_view());
                }
                sessions[si].is_active(now_ms)
            },
            None => false,
        };
        if keep {
            out.push(id.clone());
            proof {
                assert(out.deep_view() =~= spec_keep_active(
                    ids.deep_view().take(i + 1),
                    sessions.deep_view(),
                    now_ms,
                ));
            }
        }
        i = i + 1;
    }
    proof {
        assert(ids.deep_view().take(n as int) =~= ids.deep_view());
    }
    out
}

/// Whether a session matches the filter text.
fn matches_filter(s: &Session, filter: &str) -> (r: bool)
    ensures
        r == spec_matches_filter(s@, filter@),
{
    let fl = crate::strutil::to_lowercase(filter);
    let dn = s.display_name();
    let dn_lower = crate::strutil::to_lowercase(dn.as_str());
    if crate::strutil::contains_str(dn_lower.as_str(), fl.as_str()) {
        return true;
    }
    if crate::strutil::contains_str(s.id.as_str(), fl.as_str()) {
        return true;
    }
    let summary_lower = match &s.summary {
        Some(x) => crate::strutil::to_lowercase(x.as_str()),
        None => crate::strutil::to_lowercase(""),
    };
    proof {
        if s.summary is None {
            reveal_strlit("");
            assert(""@ =~= Seq::<char>::empty());
        }
    }
    crate::strutil::contains_str(summary_lower.as_str(), fl.as_str())
}

/// Keep the ids of sessions matching the filter text.
fn retain_matching(sessions: &Vec<Session>, ids: Vec<String>, filter: &str) -> (r: Vec<String>)
    ensures
        r.deep_view() == spec_keep_matching(ids.deep_view(), sessions.deep_view(), filter@),
{
    let mut out: Vec<String> = Vec::new();
    let n = ids.len();
    let mut i: usize = 0;
    proof {
        assert(out.deep_view() =~= spec_keep_matching(
            ids.deep_view().take(0),
            sessions.deep_view(),
            filter@,
        ));
    }
    while i < n
        invariant
            0 <= i <= n,
            n == ids@.len(),
            out.deep_view() == spec_keep_matching(
                ids.deep_view().take(i as int),
                sessions.deep_view(),
                filter@,
            ),
        decreases n - i,
    {
        proof {
            assert(ids.deep_view()[i as int] == ids@[i as int].deep_view());
            assert(ids.deep_view().take(i + 1).drop_last() =~= ids.deep_view().take(i as int));
            assert(ids.deep_view().take(i + 1).last() == ids.deep_view()[i as int]);
        }
        let id = &ids[i];
        let keep: bool = match find_session(sessions, id.as_str()) {
            Some(si) => {
                proof {
                    assert(sessions.deep_view()[si as int] == sessions@[si as int].deep_view());
                }
                matches_filter(&sessions[si], filter)
            },
            None => false,
        };
        if keep {
            out.push(id.clone());
            proof {
                assert(out.deep_view() =~= spec_keep_matching(
                    ids.deep_view().take(i + 1),
                    sessions.deep_view(),
                    filter@,
                ));
            }
        }
        i = i + 1;
    }
    proof {
        assert(ids.deep_view().take(n as int) =~= ids.deep_view());
    }
    out
}

// ----- selection -----

/// The position of the first occurrence of `id`, or -1.
pub open spec fn spec_pos(ids: Seq<Seq<char>>, id: Seq<char>) -> int
    decreases ids.len(),
{
    if ids.len() == 0 {
        -1
    } else if ids[0] == id {
        0
    } else {
        let r = spec_pos(ids.drop_first(), id);
        if r >= 0 {
            1 + r
        } else {
            -1
        }
    }
}

pub proof fn lemma_spec_pos(ids: Seq<Seq<char>>, id: Seq<char>)
    ensures
        -1 <= spec_pos(ids, id) < ids.len(),
        spec_pos(ids, id) >= 0 ==> ids[spec_pos(ids, id)] == id,
        spec_pos(ids, id) == -1 ==> forall|k: int| 0 <= k < ids.len() ==> ids[k] != id,
    decreases ids.len(),
{
    if ids.len() == 0 {
    } else if ids[0] == id {
    } else {
        let t = ids.drop_first();
        lemma_spec_pos(t, id);
        assert(forall|k: int| 0 <= k < t.len() ==> t[k] == ids[k + 1]);
        if spec_pos(ids, id) == -1 {
            assert forall|k: int| 0 <= k < ids.len() implies ids[k] != id by {
                if k > 0 {
                    assert(t[k - 1] != id);
                }
            }
        } else {
            assert(ids[spec_pos(ids, id)] == t[spec_pos(t, id)]);
        }
    }
}

/// The selection after a recompute: keep the previous selection when still
/// visible; else select the first surviving id; else keep the remembered id
/// but clear the visible index.
pub open spec fn spec_select(ids: Seq<Seq<char>>, old_sel: Option<Seq<char>>) -> (
    Option<Seq<char>>,
    Option<int>,
) {
    if old_sel is Some && spec_pos(ids, old_sel->Some_0) >= 0 {
        (old_sel, Some(spec_pos(ids, old_sel->Some_0)))
    } else if ids.len() > 0 {
        (Some(ids[0]), Some(0int))
    } else {
        (old_sel, None)
    }
}

/// The position of the first occurrence of `id`, if any.
fn position_of(ids: &Vec<String>, id: &str) -> (r: Option<usize>)
    ensures
        match r {
            Some(i) => i == spec_pos(ids.deep_view(), id@),
            None => spec_pos(ids.deep_view(), id@) == -1,
        },
{
    proof {
        lemma_spec_pos(ids.deep_view(), id@);
    }
    let n = ids.len();
    let mut i: usize = 0;
    while i < n
        invariant
            0 <= i <= n,
            n == ids@.len(),
            forall|k: int| 0 <= k < i ==> ids.deep_view()[k] != id@,
        decreases n - i,
    {
        proof {
            assert(ids.deep_view()[i as int] == ids@[i as int].deep_view());
        }
        if crate::strutil::str_eq(ids[i].as_str(), id) {
            proof {
                lemma_spec_pos(ids.deep_view(), id@);
                lemma_pos_at(ids.deep_view(), id@, i as int);
            }
            return Some(i);
        }
        i = i + 1;
    }
    None
}

proof fn lemma_pos_at(ids: Seq<Seq<char>>, id: Seq<char>, i: int)
    requires
        0 <= i < ids.len(),
        ids[i] == id,
        forall|k: int| 0 <= k < i ==> ids[k] != id,
    ensures
        spec_pos(ids, id) == i,
    decreases i,
{
    if ids[0] == id {
        assert(i == 0);
    } else {
        let t = ids.drop_first();
        assert(forall|k: int| 0 <= k < i - 1 ==> t[k] != id);
        assert(t[i - 1] == id);
        lemma_pos_at(t, id, i - 1);
    }
}

// ----- the controller state -----

/// The view-state controller: the session store plus the derived visible
/// ordering, selection, focus, scroll and filter state.
#[derive(Debug)]
pub struct App {
    pub sessions: Vec<Session>,
    /// The visible ordered ids, after sorting, deduplication and filtering.
    pub sorted_session_ids: Vec<String>,
    /// The remembered selection; shown when it is visible.
    pub selected_session: Option<String>,
    /// The position of the selection in the visible list, when visible.
    pub selected_index: Option<usize>,
    pub chat_scroll: usize,
    pub chat_scroll_locked_to_bottom: bool,
    pub filter_mode: bool,
    pub filter_text: Option<String>,
    pub show_active_only: bool,
    pub focus: FocusPanel,
    pub should_quit: bool,
    /// When the periodic metadata refresh last ran, epoch milliseconds.
    pub last_index_refresh_ms: i64,
}

/// Mathematical view of the controller state.
pub struct AppView {
    pub sessions: Seq<SessionView>,
    pub sorted_ids: Seq<Seq<char>>,
    pub selected: Option<Seq<char>>,
    pub selected_index: Option<int>,
    pub chat_scroll: int,
    pub chat_scroll_locked_to_bottom: bool,
    pub filter_mode: bool,
    pub filter_text: Option<Seq<char>>,
    pub show_active_only: bool,
    pub focus: FocusPanel,
    pub should_quit: bool,
    pub last_index_refresh_ms: i64,
}

impl View for App {
    type V = AppView;

    open spec fn view(&self) -> AppView {
        AppView {
            sessions: self.sessions.deep_view(),
            sorted_ids: self.sorted_session_ids.deep_view(),
            selected: self.selected_session.deep_view(),
            selected_index: match self.selected_index {
                Some(i) => Some(i as int),
                None => None,
            },
            chat_scroll: self.chat_scroll as int,
            chat_scroll_locked_to_bottom: self.chat_scroll_locked_to_bottom,
            filter_mode: self.filter_mode,
            filter_text: self.filter_text.deep_view(),
            show_active_only: self.show_active_only,
            focus: self.focus,
            should_quit: self.should_quit,
            last_index_refresh_ms: self.last_index_refresh_ms,
        }
    }
}

/// The whole recompute of the visible ordering: sort all tracked ids by
/// latest activity, collapse duplicate slugs (migrating titles), apply the
/// active-only filter, then the free-text filter, then settle the selection.
pub open spec fn spec_recompute(a: AppView, now: i64) -> AppView {
    let ids0 = spec_sorted_ids(a.sessions);
    let d = spec_dedup(ids0, Seq::empty(), a.sessions);
    let ids1 = if a.show_active_only {
        spec_keep_active(d.0, d.1, now)
    } else {
        d.0
    };
    let ids2 = match a.filter_text {
        Some(f) => spec_keep_matching(ids1, d.1, f),
        None => ids1,
    };
    let sel = spec_select(ids2, a.selected);
    AppView {
        sessions: d.1,
        sorted_ids: ids2,
        selected: sel.0,
        selected_index: sel.1,
        ..a
    }
}

impl App {
    /// Recompute the visible ordering and the selection from the store.
    pub fn update_sort(&mut self, now_ms: i64)
        ensures
            final(self)@ == spec_recompute(old(self)@, now_ms),
    {
        let ids0 = sort_session_ids(&self.sessions);
        let ids1 = dedup_visible(&mut self.sessions, ids0);
        let ids2 = if self.show_active_only {
            retain_active(&self.sessions, ids1, now_ms)
        } else {
            ids1
        };
        let ids3 = match &self.filter_text {
            Some(f) => retain_matching(&self.sessions, ids2, f.as_str()),
            None => ids2,
        };
        let mut new_sel: Option<String> = None;
        let mut new_idx: Option<usize> = None;
        let mut settled = false;
        match &self.selected_session {
            Some(sel) => match position_of(&ids3, sel.as_str()) {
                Some(p) => {
                    new_sel = Some(sel.clone());
                    new_idx = Some(p);
                    settled = true;
                },
                None => {},
            },
            None => {},
        }
        if !settled {
            if ids3.len() > 0 {
                proof {
                    assert(ids3.deep_view()[0] == ids3@[0].deep_view());
                }
                new_sel = Some(ids3[0].clone());
                new_idx = Some(0);
            } else {
                new_sel = clone_opt(&self.selected_session);
                new_idx = None;
            }
        }
        self.sorted_session_ids = ids3;
        self.selected_session = new_sel;
        self.selected_index = new_idx;
    }
}

// ----- state transitions -----

/// Move the selection by `delta` within the visible list: down caps at the
/// end, up caps at the start; the chat view locks to the bottom.
pub open spec fn spec_move_selection(a: AppView, delta: int) -> AppView {
    let len = a.sorted_ids.len() as int;
    if len == 0 {
        a
    } else {
        let cur = match a.selected_index {
            Some(i) => i,
            None => 0int,
        };
        let ni = if delta > 0 {
            if cur + delta < len - 1 {
                cur + delta
            } else {
                len - 1
            }
        } else {
            if cur + delta > 0 {
                cur + delta
            } else {
                0int
            }
        };
        AppView {
            selected_index: Some(ni),
            selected: if 0 <= ni < len {
                Some(a.sorted_ids[ni])
            } else {
                None
            },
            chat_scroll_locked_to_bottom: true,
            ..a
        }
    }
}

/// Confirm the highlighted entry: it becomes the selection, the chat locks to
/// the bottom and takes focus.
pub open spec fn spec_select_current(a: AppView) -> AppView {
    match a.selected_index {
        Some(i) => AppView {
            selected: if 0 <= i < a.sorted_ids.len() {
                Some(a.sorted_ids[i])
            } else {
                None
            },
            chat_scroll_locked_to_bottom: true,
            focus: FocusPanel::Chat,
            ..a
        },
        None => a,
    }
}

/// Scroll the chat down by `amount`, unlocking from the bottom; the offset
/// saturates at the integer limit.
pub open spec fn spec_scroll_down(a: AppView, amount: int) -> AppView {
    AppView {
        chat_scroll: if a.chat_scroll + amount > usize::MAX {
            usize::MAX as int
        } else {
            a.chat_scroll + amount
        },
        chat_scroll_locked_to_bottom: false,
        ..a
    }
}

/// Scroll the chat up by `amount`, unlocking from the bottom; the offset
/// stops at zero.
pub open spec fn spec_scroll_up(a: AppView, amount: int) -> AppView {
    AppView {
        chat_scroll: if a.chat_scroll - amount < 0 {
            0int
        } else {
            a.chat_scroll - amount
        },
        chat_scroll_locked_to_bottom: false,
        ..a
    }
}

/// One key press while the filter prompt is open: escape abandons the filter,
/// enter confirms it, backspace removes the last character (an emptied filter
/// is cleared), any character extends it; each recomputes the view.
pub open spec fn spec_handle_filter_key(a: AppView, key: KeyInput, now: i64) -> AppView {
    match key {
        KeyInput::Esc => spec_recompute(
            AppView { filter_mode: false, filter_text: None, ..a },
            now,
        ),
        KeyInput::Enter => spec_recompute(AppView { filter_mode: false, ..a }, now),
        KeyInput::Backspace => {
            let ft = match a.filter_text {
                Some(t) => {
                    let t2 = if t.len() > 0 {
                        t.drop_last()
                    } else {
                        t
                    };
                    if t2.len() == 0 {
                        None
                    } else {
                        Some(t2)
                    }
                },
                None => None,
            };
            spec_recompute(AppView { filter_text: ft, ..a }, now)
        },
        KeyInput::Char(c) => {
            let ft = match a.filter_text {
                Some(t) => Some(t.push(c)),
                None => Some(seq![c]),
            };
            spec_recompute(AppView { filter_text: ft, ..a }, now)
        },
        _ => a,
    }
}

/// One key press in normal mode: navigation, focus, filters, scrolling and
/// the commands the caller must run.
pub open spec fn spec_handle_key(a: AppView, key: KeyInput, now: i64) -> (AppView, AppCommand) {
    if a.filter_mode {
        (spec_handle_filter_key(a, key, now), AppCommand::Nothing)
    } else {
        match key {
            KeyInput::Char(c) => {
                if c == 'q' {
                    (AppView { should_quit: true, ..a }, AppCommand::Nothing)
                } else if c == 'j' {
                    if a.focus == FocusPanel::Sessions {
                        (spec_move_selection(a, 1), AppCommand::Nothing)
                    } else {
                        (spec_scroll_down(a, 3), AppCommand::Nothing)
                    }
                } else if c == 'k' {
                    if a.focus == FocusPanel::Sessions {
                        (spec_move_selection(a, -1), AppCommand::Nothing)
                    } else {
                        (spec_scroll_up(a, 3), AppCommand::Nothing)
                    }
                } else if c == 'r' {
                    (a, AppCommand::Refresh)
                } else if c == 'a' {
                    (
                        spec_recompute(
                            AppView { show_active_only: !a.show_active_only, ..a },
                            now,
                        ),
                        AppCommand::Nothing,
                    )
                } else if c == '/' {
                    (
                        AppView { filter_mode: true, filter_text: Some(Seq::empty()), ..a },
                        AppCommand::Nothing,
                    )
                } else if c == 'G' {
                    (AppView { chat_scroll_locked_to_bottom: true, ..a }, AppCommand::Nothing)
                } else if c == 'g' {
                    (
                        AppView { chat_scroll: 0, chat_scroll_locked_to_bottom: false, ..a },
                        AppCommand::Nothing,
                    )
                } else {
                    (a, AppCommand::Nothing)
                }
            },
            KeyInput::CtrlC => (AppView { should_quit: true, ..a }, AppCommand::Nothing),
            KeyInput::Tab => (
                AppView {
                    focus: if a.focus == FocusPanel::Sessions {
                        FocusPanel::Chat
                    } else {
                        FocusPanel::Sessions
                    },
                    ..a
                },
                AppCommand::DrainInput,
            ),
            KeyInput::Down => {
                if a.focus == FocusPanel::Sessions {
                    (spec_move_selection(a, 1), AppCommand::Nothing)
                } else {
                    (spec_scroll_down(a, 3), AppCommand::Nothing)
                }
            },
            KeyInput::Up => {
                if a.focus == FocusPanel::Sessions {
                    (spec_move_selection(a, -1), AppCommand::Nothing)
                } else {
                    (spec_scroll_up(a, 3), AppCommand::Nothing)
                }
            },
            KeyInput::Enter => (spec_select_current(a), AppCommand::Nothing),
            KeyInput::PageDown => (spec_scroll_down(a, 20), AppCommand::Nothing),
            KeyInput::PageUp => (spec_scroll_up(a, 20), AppCommand::Nothing),
            _ => (a, AppCommand::Nothing),
        }
    }
}

/// How a notification is handled: a modified index file triggers a metadata
/// refresh; a modified path whose stem is a tracked id is tailed; any other
/// log path is discovered as a new session; everything else is ignored.
pub open spec fn spec_plan_event(ss: Seq<SessionView>, modified: bool, path: Seq<char>) -> PlanView {
    if modified && spec_file_name(path) == "sessions-index.json"@ {
        PlanView::RefreshMetadata
    } else if modified && spec_find_idx(ss, spec_stem_of(spec_file_name(path))) >= 0 {
        PlanView::TailSession(spec_find_idx(ss, spec_stem_of(spec_file_name(path))))
    } else if crate::strutil::spec_ext_of(spec_file_name(path)) == Some("jsonl"@) {
        PlanView::Discover(path)
    } else {
        PlanView::Ignore
    }
}

/// Insert a session into the store: it replaces the session with the same id,
/// or is appended.
pub open spec fn spec_insert_session(ss: Seq<SessionView>, sv: SessionView) -> Seq<SessionView> {
    let i = spec_find_idx(ss, sv.id);
    if i >= 0 {
        ss.update(i, sv)
    } else {
        ss.push(sv)
    }
}

/// A tail read applied to the session at `i`, with the chat locking to the
/// bottom when that session is selected and the chat has focus, then a full
/// recompute.
pub open spec fn spec_apply_tail(
    a: AppView,
    i: int,
    file_len: u64,
    data: Seq<u8>,
    now: i64,
) -> AppView {
    let sv = a.sessions[i];
    let sv2 = spec_tail(sv, file_len, data, now);
    let a1 = AppView { sessions: a.sessions.update(i, sv2), ..a };
    let a2 = if a1.focus == FocusPanel::Chat && a1.selected == Some(sv.id) {
        AppView { chat_scroll_locked_to_bottom: true, ..a1 }
    } else {
        a1
    };
    spec_recompute(a2, now)
}

/// The initial controller state over a discovered store: all ids sorted, the
/// first one selected, no filters, focus on the session list.
pub open spec fn spec_new_app(ss: Seq<SessionView>, now: i64) -> AppView {
    let ids = spec_sorted_ids(ss);
    AppView {
        sessions: ss,
        sorted_ids: ids,
        selected: if ids.len() > 0 {
            Some(ids[0])
        } else {
            None
        },
        selected_index: if ids.len() > 0 {
            Some(0int)
        } else {
            None
        },
        chat_scroll: 0,
        chat_scroll_locked_to_bottom: true,
        filter_mode: false,
        filter_text: None,
        show_active_only: false,
        focus: FocusPanel::Sessions,
        should_quit: false,
        last_index_refresh_ms: now,
    }
}

impl App {
    /// Build the controller over a freshly discovered store.
    pub fn new(sessions: Vec<Session>, now_ms: i64) -> (r: App)
        ensures
            r@ == spec_new_app(sessions.deep_view(), now_ms),
    {
        let sorted = sort_session_ids(&sessions);
        let selected: Option<String> = if sorted.len() > 0 {
            proof {
                assert(sorted.deep_view()[0] == sorted@[0].deep_view());
            }
            Some(sorted[0].clone())
        } else {
            None
        };
        let selected_index: Option<usize> = if sorted.len() > 0 {
            Some(0)
        } else {
            None
        };
        App {
            sessions,
            sorted_session_ids: sorted,
            selected_session: selected,
            selected_index,
            chat_scroll: 0,
            chat_scroll_locked_to_bottom: true,
            filter_mode: false,
            filter_text: None,
            show_active_only: false,
            focus: FocusPanel::Sessions,
            should_quit: false,
            last_index_refresh_ms: now_ms,
        }
    }

    /// Move the selection by `delta` in the visible list.
    pub fn move_selection(&mut self, delta: i32)
        ensures
            final(self)@ == spec_move_selection(old(self)@, delta as int),
    {
        let len = self.sorted_session_ids.len();
        if len == 0 {
            return;
        }
        let cur: usize = match self.selected_index {
            Some(i) => i,
            None => 0,
        };
        let ni: usize = if delta > 0 {
            let x = cur.checked_add(delta as usize).unwrap_or(usize::MAX);
            if x < len - 1 {
                x
            } else {
                len - 1
            }
        } else {
            let d = (-(delta as i64)) as usize;
            cur.checked_sub(d).unwrap_or(0)
        };
        self.selected_index = Some(ni);
        self.selected_session = if ni < len {
            proof {
                assert(self.sorted_session_ids.deep_view()[ni as int] == self.sorted_session_ids@[
                    ni as int].deep_view());
            }
            Some(self.sorted_session_ids[ni].clone())
        } else {
            None
        };
        self.chat_scroll_locked_to_bottom = true;
    }

    /// Confirm the highlighted entry and focus the chat.
    pub fn select_current(&mut self)
        ensures
            final(self)@ == spec_select_current(old(self)@),
    {
        match self.selected_index {
            Some(i) => {
                self.selected_session = if i < self.sorted_session_ids.len() {
                    proof {
                        assert(self.sorted_session_ids.deep_view()[i as int]
                            == self.sorted_session_ids@[i as int].deep_view());
                    }
                    Some(self.sorted_session_ids[i].clone())
                } else {
                    None
                };
                self.chat_scroll_locked_to_bottom = true;
                self.focus = FocusPanel::Chat;
            },
            None => {},
        }
    }

    /// Scroll the chat down, unlocking from the bottom.
    pub fn scroll_chat_down(&mut self, amount: usize)
        ensures
            final(self)@ == spec_scroll_down(old(self)@, amount as int),
    {
        self.chat_scroll = self.chat_scroll.checked_add(amount).unwrap_or(usize::MAX);
        self.chat_scroll_locked_to_bottom = false;
    }

    /// Scroll the chat up, unlocking from the bottom.
    pub fn scroll_chat_up(&mut self, amount: usize)
        ensures
            final(self)@ == spec_scroll_up(old(self)@, amount as int),
    {
        self.chat_scroll = self.chat_scroll.checked_sub(amount).unwrap_or(0);
        self.chat_scroll_locked_to_bottom = false;
    }

    fn handle_filter_key(&mut self, key: KeyInput, now_ms: i64)
        ensures
            final(self)@ == spec_handle_filter_key(old(self)@, key, now_ms),
    {
        match key {
            KeyInput::Esc => {
                self.filter_mode = false;
                self.filter_text = None;
                self.update_sort(now_ms);
            },
            KeyInput::Enter => {
                self.filter_mode = false;
                self.update_sort(now_ms);
            },
            KeyInput::Backspace => {
                let new_ft: Option<String> = match &self.filter_text {
                    Some(t) => {
                        let n = t.as_str().unicode_len();
                        if n <= 1 {
                            proof {
                                if n == 1 {
                                    assert(t@.drop_last().len() == 0);
                                }
                            }
                            None
                        } else {
                            let t2 = t.as_str().substring_char(0, n - 1);
                            proof {
                                assert(t@.subrange(0, n - 1) =~= t@.drop_last());
                            }
                            Some(t2.to_owned())
                        }
                    },
                    None => None,
                };
                self.filter_text = new_ft;
                self.update_sort(now_ms);
            },
            KeyInput::Char(c) => {
                let new_ft: String = match &self.filter_text {
                    Some(t) => {
                        let mut t2 = t.clone();
                        crate::strutil::string_push(&mut t2, c);
                        t2
                    },
                    None => {
                        let mut t2 = String::new();
                        crate::strutil::string_push(&mut t2, c);
                        proof {
                            assert(Seq::<char>::empty().push(c) =~= seq![c]);
                        }
                        t2
                    },
                };
                self.filter_text = Some(new_ft);
                self.update_sort(now_ms);
            },
            _ => {},
        }
    }

    /// Handle one key press; the returned command tells the caller what to do
    /// beyond the state change.
    pub fn handle_key_event(&mut self, key: KeyInput, now_ms: i64) -> (r: AppCommand)
        ensures
            final(self)@ == spec_handle_key(old(self)@, key, now_ms).0,
            r == spec_handle_key(old(self)@, key, now_ms).1,
    {
        if self.filter_mode {
            self.handle_filter_key(key, now_ms);
            return AppCommand::Nothing;
        }
        match key {
            KeyInput::Char(c) => {
                if c == 'q' {
                    self.should_quit = true;
                    AppCommand::Nothing
                } else if c == 'j' {
                    if self.focus == FocusPanel::Sessions {
                        self.move_selection(1);
                    } else {
                        self.scroll_chat_down(3);
                    }
                    AppCommand::Nothing
                } else if c == 'k' {
                    if self.focus == FocusPanel::Sessions {
                        self.move_selection(-1);
                    } else {
                        self.scroll_chat_up(3);
                    }
                    AppCommand::Nothing
                } else if c == 'r' {
                    AppCommand::Refresh
                } else if c == 'a' {
                    self.show_active_only = !self.show_active_only;
                    self.update_sort(now_ms);
                    AppCommand::Nothing
                } else if c == '/' {
                    self.filter_mode = true;
                    let empty = String::new();
                    self.filter_text = Some(empty);
                    AppCommand::Nothing
                } else if c == 'G' {
                    self.chat_scroll_locked_to_bottom = true;
                    AppCommand::Nothing
                } else if c == 'g' {
                    self.chat_scroll = 0;
                    self.chat_scroll_locked_to_bottom = false;
                    AppCommand::Nothing
                } else {
                    AppCommand::Nothing
                }
            },
            KeyInput::CtrlC => {
                self.should_quit = true;
                AppCommand::Nothing
            },
            KeyInput::Tab => {
                self.focus = if self.focus == FocusPanel::Sessions {
                    FocusPanel::Chat
                } else {
                    FocusPanel::Sessions
                };
                AppCommand::DrainInput
            },
            KeyInput::Down => {
                if self.focus == FocusPanel::Sessions {
                    self.move_selection(1);
                } else {
                    self.scroll_chat_down(3);
                }
                AppCommand::Nothing
            },
            KeyInput::Up => {
                if self.focus == FocusPanel::Sessions {
                    self.move_selection(-1);
                } else {
                    self.scroll_chat_up(3);
                }
                AppCommand::Nothing
            },
            KeyInput::Enter => {
                self.select_current();
                AppCommand::Nothing
            },
            KeyInput::PageDown => {
                self.scroll_chat_down(20);
                AppCommand::Nothing
            },
            KeyInput::PageUp => {
                self.scroll_chat_up(20);
                AppCommand::Nothing
            },
            _ => AppCommand::Nothing,
        }
    }

    /// Decide how to handle one change notification.
    pub fn plan_event(&self, evt: &WatchEvent) -> (r: EventAction)
        ensures
            r@ == spec_plan_event(
                self.sessions.deep_view(),
                *evt is FileModified,
                spec_evt_path(*evt),
            ),
            r@ matches PlanView::TailSession(i) ==> 0 <= i < self.sessions@.len(),
    {
        proof {
            lemma_find_idx(self.sessions.deep_view(), spec_stem_of(spec_file_name(spec_evt_path(
                *evt,
            ))));
        }
        match evt {
            WatchEvent::FileModified(p) => {
                if crate::strutil::str_eq(
                    crate::strutil::path_file_name(p.as_str()),
                    "sessions-index.json",
                ) {
                    return EventAction::RefreshMetadata;
                }
                let stem = crate::strutil::path_stem(p.as_str());
                match find_session(&self.sessions, stem) {
                    Some(i) => EventAction::TailSession(i),
                    None => Self::created_plan(p),
                }
            },
            WatchEvent::FileCreated(p) => Self::created_plan(p),
        }
    }

    fn created_plan(p: &String) -> (r: EventAction)
        ensures
            r@ == (if crate::strutil::spec_ext_of(spec_file_name(p@)) == Some("jsonl"@) {
                PlanView::Discover(p@)
            } else {
                PlanView::Ignore
            }),
    {
        match crate::strutil::path_extension(p.as_str()) {
            Some(e) => {
                if crate::strutil::str_eq(e, "jsonl") {
                    EventAction::Discover(p.clone())
                } else {
                    EventAction::Ignore
                }
            },
            None => EventAction::Ignore,
        }
    }

    /// Tail the session at `i` with freshly read bytes, lock the chat to the
    /// bottom when that session is on screen, and recompute.
    pub fn apply_tail(&mut self, i: usize, file_len: u64, data: &[u8], now_ms: i64)
        requires
            i < old(self).sessions@.len(),
        ensures
            final(self)@ == spec_apply_tail(old(self)@, i as int, file_len, data@, now_ms),
    {
        proof {
            assert(self.sessions.deep_view()[i as int] == self.sessions@[i as int].deep_view());
        }
        let ghost pre_seq = self.sessions@;
        let ghost pre_dv = self.sessions.deep_view();
        let _new_msgs = crate::session::read_new_lines(
            &mut self.sessions[i],
            file_len,
            data,
            now_ms,
        );
        proof {
            assert forall|kk: int| 0 <= kk < pre_seq.len() && kk != i implies
                self.sessions.deep_view()[kk] == pre_dv[kk] by {
                assert(self.sessions@[kk] == pre_seq[kk]);
                assert(self.sessions.deep_view()[kk] == self.sessions@[kk].deep_view());
                assert(pre_dv[kk] == pre_seq[kk].deep_view());
            }
            assert(self.sessions.deep_view()[i as int] == self.sessions@[i as int].deep_view());
            assert(self.sessions.deep_view() =~= pre_dv.update(
                i as int,
                spec_tail(pre_dv[i as int], file_len, data@, now_ms),
            ));
        }
        let on_screen: bool = if self.focus == FocusPanel::Chat {
            match &self.selected_session {
                Some(sel) => {
                    proof {
                        crate::session::lemma_apply_lines_effect(
                            crate::session::spec_apply_lines(
                                pre_dv[i as int],
                                crate::session::spec_lines(data@),
                                now_ms,
                            ),
                            Seq::empty(),
                            now_ms,
                        );
                        crate::session::lemma_apply_lines_effect(
                            pre_dv[i as int],
                            crate::session::spec_lines(data@),
                            now_ms,
                        );
                        assert(self.sessions.deep_view()[i as int].id == pre_dv[i as int].id);
                    }
                    crate::strutil::str_eq(sel.as_str(), self.sessions[i].id.as_str())
                },
                None => false,
            }
        } else {
            false
        };
        if on_screen {
            self.chat_scroll_locked_to_bottom = true;
        }
        self.update_sort(now_ms);
    }

    /// Insert a newly discovered session (replacing one with the same id) and
    /// recompute.
    pub fn insert_discovered(&mut self, s: Session, now_ms: i64)
        ensures
            final(self)@ == spec_recompute(
                AppView { sessions: spec_insert_session(old(self)@.sessions, s@), ..old(self)@ },
                now_ms,
            ),
    {
        let ghost pre_seq = self.sessions@;
        let ghost pre_dv = self.sessions.deep_view();
        let ghost sv = s@;
        match find_session(&self.sessions, s.id.as_str()) {
            Some(i) => {
                proof {
                    lemma_find_idx(pre_dv, sv.id);
                    assert(i == spec_find_idx(pre_dv, sv.id));
                }
                self.sessions[i] = s;
                proof {
                    assert forall|kk: int| 0 <= kk < pre_seq.len() && kk != i implies
                        self.sessions.deep_view()[kk] == pre_dv[kk] by {
                        assert(self.sessions@[kk] == pre_seq[kk]);
                        assert(self.sessions.deep_view()[kk] == self.sessions@[kk].deep_view());
                        assert(pre_dv[kk] == pre_seq[kk].deep_view());
                    }
                    assert(self.sessions@[i as int]@ == sv);
                    assert(self.sessions.deep_view()[i as int] == self.sessions@[
                        i as int].deep_view());
                    assert(self.sessions.deep_view() =~= pre_dv.update(i as int, sv));
                    assert(self.sessions.deep_view() == spec_insert_session(pre_dv, sv));
                }
            },
            None => {
                proof {
                    assert(spec_find_idx(pre_dv, sv.id) == -1);
                }
                self.sessions.push(s);
                proof {
                    assert forall|kk: int| 0 <= kk < pre_seq.len() implies
                        self.sessions.deep_view()[kk] == pre_dv[kk] by {
                        assert(self.sessions@[kk] == pre_seq[kk]);
                        assert(self.sessions.deep_view()[kk] == self.sessions@[kk].deep_view());
                        assert(pre_dv[kk] == pre_seq[kk].deep_view());
                    }
                    assert(self.sessions@[pre_seq.len() as int]@ == sv);
                    assert(self.sessions.deep_view()[pre_seq.len() as int] == self.sessions@[
                        pre_seq.len() as int].deep_view());
                    assert(self.sessions.deep_view() =~= pre_dv.push(sv));
                    assert(self.sessions.deep_view() == spec_insert_session(pre_dv, sv));
                }
            },
        }
        self.update_sort(now_ms);
    }

    /// Apply one project's metadata-index entries to the store; the caller
    /// recomputes once after all projects are applied.
    pub fn apply_index_entries(&mut self, entries: &Vec<IndexEntry>)
        ensures
            final(self)@.sessions.len() == old(self)@.sessions.len(),
            forall|i: int| 0 <= i < old(self)@.sessions.len() ==> final(self)@.sessions[i]
                == crate::session::spec_refresh_one(
                old(self)@.sessions[i],
                spec_last_entry(entries.deep_view(), old(self)@.sessions[i].id),
            ),
            final(self)@ == (AppView { sessions: final(self)@.sessions, ..old(self)@ }),
    {
        crate::session::refresh_index_metadata(&mut self.sessions, entries);
        proof {
            assert(final(self)@ =~= (AppView { sessions: final(self)@.sessions, ..old(self)@ }));
        }
    }

    /// Replace the whole store (a forced full rescan) and recompute.
    pub fn replace_sessions(&mut self, sessions: Vec<Session>, now_ms: i64)
        ensures
            final(self)@ == spec_recompute(
                AppView { sessions: sessions.deep_view(), ..old(self)@ },
                now_ms,
            ),
    {
        self.sessions = sessions;
        self.update_sort(now_ms);
    }

    /// Whether the periodic metadata refresh is due.
    pub fn maintenance_due(&self, now_ms: i64) -> (r: bool)
        ensures
            r == (now_ms - self@.last_index_refresh_ms >= REFRESH_INTERVAL_MS),
    {
        match now_ms.checked_sub(self.last_index_refresh_ms) {
            Some(d) => d >= REFRESH_INTERVAL_MS,
            None => self.last_index_refresh_ms < 0,
        }
    }

    /// Note that the periodic refresh ran at `now_ms`.
    pub fn mark_refreshed(&mut self, now_ms: i64)
        ensures
            final(self)@ == (AppView { last_index_refresh_ms: now_ms, ..old(self)@ }),
    {
        self.last_index_refresh_ms = now_ms;
    }
}

/// Whether the point (x, y) lies inside the rectangle with origin (rx, ry),
/// width `rw` and height `rh`.
pub fn rect_contains(rx: u16, ry: u16, rw: u16, rh: u16, x: u16, y: u16) -> (r: bool)
    ensures
        r == (rx <= x && (x as int) < rx + rw && ry <= y && (y as int) < ry + rh),
{
    x >= rx && (x as u32) < (rx as u32) + (rw as u32) && y >= ry && (y as u32) < (ry as u32) + (
    rh as u32)
}

// ----- laws -----

/// Finding by id looks only at the ids: stores whose sessions carry the same
/// ids position for position are searched alike.
proof fn lemma_find_idx_same_ids(ss1: Seq<SessionView>, ss2: Seq<SessionView>, id: Seq<char>)
    requires
        ss1.len() == ss2.len(),
        forall|i: int| 0 <= i < ss1.len() ==> (#[trigger] ss1[i]).id == ss2[i].id,
    ensures
        spec_find_idx(ss1, id) == spec_find_idx(ss2, id),
    decreases ss1.len(),
{
    if ss1.len() == 0 {
    } else {
        assert(ss1.last().id == ss2.last().id);
        let t1 = ss1.drop_last();
        let t2 = ss2.drop_last();
        assert(forall|i: int| 0 <= i < t1.len() ==> (#[trigger] t1[i]).id == t2[i].id);
        lemma_find_idx_same_ids(t1, t2, id);
    }
}

/// Deduplication of exactly two ids whose sessions share a slug: only the
/// first id stays, and the kept session's custom title is its own when it has
/// one, else the duplicate's.
proof fn lemma_dedup_two(ss: Seq<SessionView>, u: SessionView, v: SessionView, sl: Seq<char>)
    requires
        u.id != v.id,
        spec_lookup(ss, u.id) == Some(u),
        spec_lookup(ss, v.id) == Some(v),
        u.slug == Some(sl),
        v.slug == Some(sl),
    ensures
        spec_dedup(seq![u.id, v.id], Seq::empty(), ss).0 == seq![u.id],
        spec_lookup(spec_dedup(seq![u.id, v.id], Seq::empty(), ss).1, u.id) matches Some(k)
            && k.custom_title == (if u.custom_title is Some {
            u.custom_title
        } else {
            v.custom_title
        }),
{
    let ids = seq![u.id, v.id];
    let seen0 = Seq::<(Seq<char>, Seq<char>)>::empty();
    assert(ids[0] == u.id);
    assert(ids.drop_first() =~= seq![v.id]);
    assert(seen_kept(seen0, sl) is None);
    let seen1 = seen0.push((sl, u.id));
    assert(seen1[0] == (sl, u.id));
    assert(seen_kept(seen1, sl) == Some(u.id));
    let ids1 = seq![v.id];
    assert(ids1[0] == v.id);
    assert(ids1.drop_first() =~= Seq::<Seq<char>>::empty());
    lemma_find_idx(ss, u.id);
    let ki = spec_find_idx(ss, u.id);
    assert(0 <= ki < ss.len() && ss[ki] == u);
    let ss2 = if v.custom_title is Some {
        spec_migrate(ss, u.id, v.custom_title)
    } else {
        ss
    };
    // one unfolding per step of the two-element pass
    let empty_ids = Seq::<Seq<char>>::empty();
    assert(spec_dedup(empty_ids, seen1, ss2) == (Seq::<Seq<char>>::empty(), ss2));
    assert(spec_dedup(ids1, seen1, ss) == spec_dedup(empty_ids, seen1, ss2)) by {
        assert(spec_lookup(ss, ids1[0]) == Some(v));
        assert(ids1.drop_first() == empty_ids);
    }
    assert(spec_dedup(ids, seen0, ss).0 == seq![u.id] + spec_dedup(ids1, seen1, ss).0) by {
        assert(spec_lookup(ss, ids[0]) == Some(u));
        assert(ids.drop_first() == ids1);
        assert(seen0.push((sl, u.id)) == seen1);
    }
    assert(spec_dedup(ids, seen0, ss).1 == spec_dedup(ids1, seen1, ss).1);
    assert(spec_dedup(ids, seen0, ss).0 =~= seq![u.id]);
    if v.custom_title is Some && u.custom_title is None {
        assert(ss2 == ss.update(ki, SessionView { custom_title: v.custom_title, ..u }));
        assert forall|i: int| 0 <= i < ss.len() implies (#[trigger] ss2[i]).id == ss[i].id by {
        }
        lemma_find_idx_same_ids(ss2, ss, u.id);
        assert(spec_lookup(ss2, u.id) == Some(ss2[ki]));
        assert(ss2[ki].custom_title == v.custom_title);
    } else {
        assert(ss2 == ss);
        assert(spec_lookup(ss2, u.id) == Some(u));
    }
}

/// Two sessions sharing a slug, one with a custom title and one without:
/// after a recompute with no filters, exactly one of them is visible and its
/// title is the non-empty one.
pub proof fn lemma_slug_dedup(a: AppView, x: SessionView, y: SessionView, sl: Seq<char>, t: Seq<char>, now: i64)
    requires
        a.sessions == seq![x, y],
        x.id != y.id,
        x.slug == Some(sl),
        y.slug == Some(sl),
        (x.custom_title == Some(t) && y.custom_title is None) || (x.custom_title is None
            && y.custom_title == Some(t)),
        a.show_active_only == false,
        a.filter_text is None,
    ensures
        spec_recompute(a, now).sorted_ids.len() == 1,
        spec_lookup(
            spec_recompute(a, now).sessions,
            spec_recompute(a, now).sorted_ids[0],
        ) matches Some(k) && k.custom_title == Some(t),
{
    let ss = a.sessions;
    // the store looked up by id yields the two sessions
    assert(ss.drop_last() =~= seq![x]);
    assert(seq![x].drop_last() =~= Seq::<SessionView>::empty());
    assert(ss.last() == y);
    assert(seq![x].last() == x);
    assert(spec_find_idx(seq![x], x.id) == 0);
    assert(spec_find_idx(ss, x.id) == 0);
    assert(spec_find_idx(ss, y.id) == 1);
    assert(spec_lookup(ss, x.id) == Some(x));
    assert(spec_lookup(ss, y.id) == Some(y));
    // the sorted ids are the two ids, in one of the two orders
    let px = (x.last_activity, x.id);
    let py = (y.last_activity, y.id);
    let ps = spec_pairs(ss);
    assert(ps.len() == 2 && ps[0] == px && ps[1] == py);
    assert(ps.drop_last() =~= seq![px]);
    assert(seq![px].drop_last() =~= Seq::<(i64, Seq<char>)>::empty());
    assert(spec_sort_pairs(seq![px]) =~= seq![px]) by {
        assert(spec_sort_pairs(Seq::<(i64, Seq<char>)>::empty())
            =~= Seq::<(i64, Seq<char>)>::empty());
        assert(spec_insert_pair(px, Seq::<(i64, Seq<char>)>::empty()) =~= seq![px]);
    }
    let sorted = spec_sort_pairs(ps);
    assert(sorted == spec_insert_pair(py, seq![px]));
    let ids0 = spec_sorted_ids(ss);
    if pair_before(py, seq![px][0]) {
        assert(sorted =~= seq![py, px]);
        assert(ids0 =~= seq![y.id, x.id]);
        lemma_dedup_two(ss, y, x, sl);
        let d = spec_dedup(seq![y.id, x.id], Seq::empty(), ss);
        assert(spec_recompute(a, now).sorted_ids == seq![y.id]);
        assert(spec_recompute(a, now).sessions == d.1);
        assert(spec_lookup(d.1, y.id) matches Some(k) && k.custom_title == Some(t));
    } else {
        assert(seq![px].drop_first() =~= Seq::<(i64, Seq<char>)>::empty());
        assert(spec_insert_pair(py, Seq::<(i64, Seq<char>)>::empty()) =~= seq![py]);
        assert(sorted =~= seq![px] + spec_insert_pair(py, Seq::<(i64, Seq<char>)>::empty()));
        assert(sorted =~= seq![px, py]);
        assert(ids0 =~= seq![x.id, y.id]);
        lemma_dedup_two(ss, x, y, sl);
        let d = spec_dedup(seq![x.id, y.id], Seq::empty(), ss);
        assert(spec_recompute(a, now).sorted_ids == seq![x.id]);
        assert(spec_recompute(a, now).sessions == d.1);
        assert(spec_lookup(d.1, x.id) matches Some(k) && k.custom_title == Some(t));
    }
}

/// When no session matches the filter, nothing survives the text filter.
proof fn lemma_keep_matching_none(ids: Seq<Seq<char>>, ss: Seq<SessionView>, f: Seq<char>)
    requires
        forall|i: int| 0 <= i < ss.len() ==> !spec_matches_filter(#[trigger] ss[i], f),
    ensures
        spec_keep_matching(ids, ss, f) == Seq::<Seq<char>>::empty(),
    decreases ids.len(),
{
    if ids.len() > 0 {
        lemma_keep_matching_none(ids.drop_last(), ss, f);
        lemma_find_idx(ss, ids.last());
        match spec_lookup(ss, ids.last()) {
            Some(sv) => {
                assert(sv == ss[spec_find_idx(ss, ids.last())]);
                assert(!spec_matches_filter(sv, f));
            },
            None => {},
        }
    }
}

/// A filter that matches no session empties the visible list and clears the
/// visible selection while the selected id stays remembered; clearing the
/// filter restores the previous visible list and reselects that id. The
/// premises say that the state is one the controller itself computed — the
/// visible list is the deduplicated sorted list, the title migrations are
/// settled — and that the selection was visible.
pub proof fn lemma_filter_round_trip(a: AppView, f: Seq<char>, now1: i64, now2: i64)
    requires
        a.show_active_only == false,
        a.filter_text is None,
        spec_dedup(spec_sorted_ids(a.sessions), Seq::empty(), a.sessions).1 == a.sessions,
        a.sorted_ids == spec_dedup(spec_sorted_ids(a.sessions), Seq::empty(), a.sessions).0,
        a.selected is Some,
        spec_pos(a.sorted_ids, a.selected->Some_0) >= 0,
        forall|i: int| 0 <= i < a.sessions.len() ==> !spec_matches_filter(
            #[trigger] a.sessions[i],
            f,
        ),
    ensures
        ({
            let b = spec_recompute(AppView { filter_text: Some(f), ..a }, now1);
            &&& b.sorted_ids.len() == 0
            &&& b.selected_index is None
            &&& b.selected == a.selected
        }),
        ({
            let b = spec_recompute(AppView { filter_text: Some(f), ..a }, now1);
            let c = spec_recompute(AppView { filter_text: None, ..b }, now2);
            &&& c.sorted_ids == a.sorted_ids
            &&& c.selected == a.selected
            &&& c.selected_index == Some(spec_pos(a.sorted_ids, a.selected->Some_0))
        }),
{
    let b = spec_recompute(AppView { filter_text: Some(f), ..a }, now1);
    lemma_keep_matching_none(a.sorted_ids, a.sessions, f);
    assert(b.sorted_ids == Seq::<Seq<char>>::empty());
    assert(b.sessions == a.sessions);
    assert(b.selected == a.selected);
    assert(b.selected_index is None);
    let c = spec_recompute(AppView { filter_text: None, ..b }, now2);
    assert(c.sorted_ids == a.sorted_ids);
    assert(c.selected == a.selected);
}

} // verus!
