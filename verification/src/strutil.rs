//! Verified string primitives: whitespace trimming, character and substring
//! search, lexicographic comparison, and decimal formatting, together with the
//! few trusted wrappers around `std` string operations that vstd leaves
//! unspecified.

use vstd::prelude::*;

verus! {

/// The Unicode `White_Space` characters, the set that `str::trim` removes.
pub open spec fn is_wspace(c: char) -> bool {
    c == ' ' || c == '\t' || c == '\n' || c == '\r' || c == '\u{000B}' || c == '\u{000C}'
        || c == '\u{0085}' || c == '\u{00A0}' || c == '\u{1680}'
        || ('\u{2000}' <= c && c <= '\u{200A}') || c == '\u{2028}' || c == '\u{2029}'
        || c == '\u{202F}' || c == '\u{205F}' || c == '\u{3000}'
}

/// Whether `c` is one of the whitespace characters.
pub fn is_wspace_char(c: char) -> (r: bool)
    ensures
        r == is_wspace(c),
{
    c == ' ' || c == '\t' || c == '\n' || c == '\r' || c == '\u{000B}' || c == '\u{000C}'
        || c == '\u{0085}' || c == '\u{00A0}' || c == '\u{1680}'
        || ('\u{2000}' <= c && c <= '\u{200A}') || c == '\u{2028}' || c == '\u{2029}'
        || c == '\u{202F}' || c == '\u{205F}' || c == '\u{3000}'
}

pub open spec fn trim_start_spec(s: Seq<char>) -> Seq<char>
    decreases s.len(),
{
    if s.len() == 0 {
        s
    } else if is_wspace(s[0]) {
        trim_start_spec(s.drop_first())
    } else {
        s
    }
}

pub open spec fn trim_end_spec(s: Seq<char>) -> Seq<char>
    decreases s.len(),
{
    if s.len() == 0 {
        s
    } else if is_wspace(s.last()) {
        trim_end_spec(s.drop_last())
    } else {
        s
    }
}

/// The string with leading and trailing whitespace removed.
pub open spec fn trim_spec(s: Seq<char>) -> Seq<char> {
    trim_end_spec(trim_start_spec(s))
}

proof fn lemma_trim_start_skip(s: Seq<char>, i: int)
    requires
        0 <= i <= s.len(),
        forall|k: int| 0 <= k < i ==> is_wspace(s[k]),
        i == s.len() || !is_wspace(s[i]),
    ensures
        trim_start_spec(s) == s.skip(i),
    decreases i,
{
    if i == 0 {
        if s.len() == 0 {
            assert(trim_start_spec(s) == s);
            assert(s.skip(0) == s);
        } else {
            assert(!is_wspace(s[0]));
            assert(s.skip(0) == s);
        }
    } else {
        assert(is_wspace(s[0]));
        let t = s.drop_first();
        assert(forall|k: int| 0 <= k < i - 1 ==> is_wspace(t[k]));
        lemma_trim_start_skip(t, i - 1);
        assert(t.skip(i - 1) == s.skip(i));
    }
}

proof fn lemma_trim_end_take(s: Seq<char>, j: int)
    requires
        0 <= j <= s.len(),
        forall|k: int| j <= k < s.len() ==> is_wspace(s[k]),
        j == 0 || !is_wspace(s[j - 1]),
    ensures
        trim_end_spec(s) == s.take(j),
    decreases s.len() - j,
{
    if j == s.len() {
        if s.len() == 0 {
            assert(s.take(0) == s);
        } else {
            assert(!is_wspace(s.last()));
            assert(s.take(j) == s);
        }
    } else {
        assert(is_wspace(s.last()));
        let t = s.drop_last();
        assert(forall|k: int| j <= k < t.len() ==> is_wspace(t[k]));
        lemma_trim_end_take(t, j);
        assert(t.take(j) == s.take(j));
    }
}

/// Leading and trailing whitespace removed, as `str::trim` does.
pub fn trim<'a>(s: &'a str) -> (r: &'a str)
    ensures
        r@ == trim_spec(s@),
{
    let n = s.unicode_len();
    let mut i: usize = 0;
    while i < n && is_wspace_char(s.get_char(i))
        invariant
            0 <= i <= n,
            n == s@.len(),
            forall|k: int| 0 <= k < i ==> is_wspace(s@[k]),
        decreases n - i,
    {
        i = i + 1;
    }
    proof {
        lemma_trim_start_skip(s@, i as int);
    }
    let mut j: usize = n;
    while j > i && is_wspace_char(s.get_char(j - 1))
        invariant
            i <= j <= n,
            n == s@.len(),
            forall|k: int| 0 <= k < i ==> is_wspace(s@[k]),
            forall|k: int| j <= k < n ==> is_wspace(s@[k]),
        decreases j,
    {
        j = j - 1;
    }
    let r = s.substring_char(i, j);
    proof {
        let t = s@.skip(i as int);
        assert(forall|k: int| (j - i) <= k < t.len() ==> is_wspace(#[trigger] t[k]));
        lemma_trim_end_take(t, j - i);
        assert(t.take(j - i) =~= s@.subrange(i as int, j as int));
    }
    r
}

/// Whether some character of `s` equals `c`.
pub open spec fn contains_char(s: Seq<char>, c: char) -> bool {
    exists|i: int| 0 <= i < s.len() && s[i] == c
}

/// The position of the last occurrence of `c` in `s`, or -1 if there is none.
pub open spec fn last_index_of(s: Seq<char>, c: char) -> int
    decreases s.len(),
{
    if s.len() == 0 {
        -1
    } else if s.last() == c {
        s.len() - 1
    } else {
        last_index_of(s.drop_last(), c)
    }
}

pub proof fn lemma_last_index_of(s: Seq<char>, c: char)
    ensures
        -1 <= last_index_of(s, c) < s.len(),
        contains_char(s, c) <==> 0 <= last_index_of(s, c),
        0 <= last_index_of(s, c) ==> s[last_index_of(s, c)] == c,
        forall|k: int| last_index_of(s, c) < k < s.len() ==> s[k] != c,
    decreases s.len(),
{
    if s.len() == 0 {
    } else if s.last() == c {
        assert(s[s.len() - 1] == c);
    } else {
        let t = s.drop_last();
        lemma_last_index_of(t, c);
        let li = last_index_of(s, c);
        assert(li == last_index_of(t, c));
        assert(forall|i: int| 0 <= i < t.len() ==> t[i] == s[i]);
        assert forall|k: int| li < k < s.len() implies s[k] != c by {
            if k < s.len() - 1 {
                assert(last_index_of(t, c) < k < t.len());
                assert(t[k] != c);
                assert(s[k] == t[k]);
            } else {
                assert(s[k] == s.last());
            }
        }
        if contains_char(s, c) {
            let i = choose|i: int| 0 <= i < s.len() && s[i] == c;
            assert(i < s.len() - 1);
            assert(t[i] == c);
            assert(contains_char(t, c));
        }
        if 0 <= li {
            assert(li < t.len());
            assert(t[li] == c);
            assert(s[li] == c);
            assert(contains_char(s, c));
        }
    }
}

/// The position of the last occurrence of `c`, if any.
pub fn rfind_char(s: &str, c: char) -> (r: Option<usize>)
    ensures
        match r {
            Some(i) => i == last_index_of(s@, c) && i < s@.len(),
            None => !contains_char(s@, c),
        },
{
    proof {
        lemma_last_index_of(s@, c);
    }
    let n = s.unicode_len();
    let mut j: usize = n;
    while j > 0
        invariant
            0 <= j <= n,
            n == s@.len(),
            forall|k: int| j <= k < n ==> s@[k] != c,
        decreases j,
    {
        j = j - 1;
        if s.get_char(j) == c {
            proof {
                lemma_last_index_of(s@, c);
            }
            return Some(j);
        }
    }
    None
}

/// Whether `n` occurs as a contiguous substring of `h`.
pub open spec fn contains_seq(h: Seq<char>, n: Seq<char>) -> bool {
    exists|i: int| 0 <= i && i + n.len() <= h.len() && #[trigger] h.subrange(i, i + n.len()) == n
}

/// Substring search, as `str::contains` with a string pattern.
pub fn contains_str(h: &str, n: &str) -> (r: bool)
    ensures
        r == contains_seq(h@, n@),
{
    let hn = h.unicode_len();
    let nn = n.unicode_len();
    if nn > hn {
        return false;
    }
    if nn == 0 {
        proof {
            assert(h@.subrange(0, 0 + n@.len() as int) =~= n@);
        }
        return true;
    }
    let mut i: usize = 0;
    while i <= hn - nn
        invariant
            0 <= i <= hn - nn + 1,
            1 <= nn <= hn,
            hn == h@.len(),
            nn == n@.len(),
            forall|k: int| 0 <= k < i ==> #[trigger] h@.subrange(k, k + n@.len()) != n@,
        decreases hn - nn + 1 - i,
    {
        let mut j: usize = 0;
        let mut ok = true;
        while j < nn
            invariant
                0 <= j <= nn,
                0 <= i <= hn - nn,
                hn == h@.len(),
                nn == n@.len(),
                ok ==> forall|k: int| 0 <= k < j ==> h@[i + k] == n@[k],
                !ok ==> h@.subrange(i as int, i + n@.len()) != n@,
            decreases nn - j,
        {
            if ok && h.get_char(i + j) != n.get_char(j) {
                proof {
                    assert(h@.subrange(i as int, i + n@.len())[j as int] != n@[j as int]);
                }
                ok = false;
            }
            j = j + 1;
        }
        if ok {
            proof {
                assert(h@.subrange(i as int, i + n@.len()) =~= n@);
            }
            return true;
        }
        i = i + 1;
    }
    false
}

/// Whether the views of two strings are equal.
pub fn str_eq(a: &str, b: &str) -> (r: bool)
    ensures
        r == (a@ == b@),
{
    let an = a.unicode_len();
    let bn = b.unicode_len();
    if an != bn {
        return false;
    }
    let mut i: usize = 0;
    while i < an
        invariant
            0 <= i <= an,
            an == a@.len(),
            an == b@.len(),
            forall|k: int| 0 <= k < i ==> a@[k] == b@[k],
        decreases an - i,
    {
        if a.get_char(i) != b.get_char(i) {
            return false;
        }
        i = i + 1;
    }
    proof {
        assert(a@ =~= b@);
    }
    true
}

/// Lexicographic order on character sequences, by code point.
pub open spec fn lex_le(a: Seq<char>, b: Seq<char>) -> bool
    decreases a.len(),
{
    if a.len() == 0 {
        true
    } else if b.len() == 0 {
        false
    } else if a[0] < b[0] {
        true
    } else if a[0] > b[0] {
        false
    } else {
        lex_le(a.drop_first(), b.drop_first())
    }
}

pub proof fn lemma_lex_le_total(a: Seq<char>, b: Seq<char>)
    ensures
        lex_le(a, b) || lex_le(b, a),
        (lex_le(a, b) && lex_le(b, a)) ==> a == b,
    decreases a.len(),
{
    if a.len() == 0 {
        if b.len() == 0 {
            assert(a =~= b);
        }
    } else if b.len() == 0 {
    } else if a[0] == b[0] {
        lemma_lex_le_total(a.drop_first(), b.drop_first());
        if lex_le(a, b) && lex_le(b, a) {
            assert(a.drop_first() == b.drop_first());
            assert(a =~= seq![a[0]] + a.drop_first());
            assert(b =~= seq![b[0]] + b.drop_first());
        }
    }
}

/// Lexicographic comparison of two strings by code point.
pub fn str_lex_le(a: &str, b: &str) -> (r: bool)
    ensures
        r == lex_le(a@, b@),
{
    let an = a.unicode_len();
    let bn = b.unicode_len();
    proof {
        assert(a@.skip(0) == a@);
        assert(b@.skip(0) == b@);
    }
    let mut i: usize = 0;
    loop
        invariant
            0 <= i <= an,
            i <= bn,
            an == a@.len(),
            bn == b@.len(),
            forall|k: int| 0 <= k < i ==> a@[k] == b@[k],
            lex_le(a@, b@) == lex_le(a@.skip(i as int), b@.skip(i as int)),
        decreases an - i,
    {
        if i >= an {
            assert(a@.skip(i as int).len() == 0);
            return true;
        }
        if i >= bn {
            assert(b@.skip(i as int).len() == 0);
            assert(a@.skip(i as int).len() > 0);
            return false;
        }
        let ca = a.get_char(i);
        let cb = b.get_char(i);
        if ca < cb {
            assert(a@.skip(i as int)[0] == ca && b@.skip(i as int)[0] == cb);
            return true;
        }
        if ca > cb {
            assert(a@.skip(i as int)[0] == ca && b@.skip(i as int)[0] == cb);
            return false;
        }
        proof {
            let sa = a@.skip(i as int);
            let sb = b@.skip(i as int);
            assert(sa[0] == ca && sb[0] == cb);
            assert(sa.drop_first() =~= a@.skip(i + 1));
            assert(sb.drop_first() =~= b@.skip(i + 1));
        }
        i = i + 1;
    }
}

/// The part of a path after the last `/`; the whole path when it has none.
pub open spec fn spec_file_name(p: Seq<char>) -> Seq<char> {
    p.skip(last_index_of(p, '/') + 1)
}

/// The file name of a path, the part after the last `/`.
pub fn path_file_name<'a>(p: &'a str) -> (r: &'a str)
    ensures
        r@ == spec_file_name(p@),
{
    proof {
        lemma_last_index_of(p@, '/');
    }
    let n = p.unicode_len();
    match rfind_char(p, '/') {
        Some(i) => {
            let r = p.substring_char(i + 1, n);
            proof {
                assert(p@.subrange(i + 1, n as int) =~= p@.skip(i + 1));
            }
            r
        },
        None => {
            proof {
                assert(p@.skip(0) =~= p@);
            }
            p
        },
    }
}

/// The stem of a file name: the part before the last `.`, except that a
/// leading `.` starts no extension.
pub open spec fn spec_stem_of(name: Seq<char>) -> Seq<char> {
    let d = last_index_of(name, '.');
    if d <= 0 {
        name
    } else {
        name.take(d)
    }
}

/// The extension of a file name: the part after the last `.`, except that a
/// leading `.` starts no extension.
pub open spec fn spec_ext_of(name: Seq<char>) -> Option<Seq<char>> {
    let d = last_index_of(name, '.');
    if d <= 0 {
        None
    } else {
        Some(name.skip(d + 1))
    }
}

/// The stem of a path's file name.
pub fn path_stem<'a>(p: &'a str) -> (r: &'a str)
    ensures
        r@ == spec_stem_of(spec_file_name(p@)),
{
    let name = path_file_name(p);
    proof {
        lemma_last_index_of(name@, '.');
    }
    match rfind_char(name, '.') {
        Some(d) => {
            if d == 0 {
                name
            } else {
                let r = name.substring_char(0, d);
                proof {
                    assert(name@.subrange(0, d as int) =~= name@.take(d as int));
                }
                r
            }
        },
        None => name,
    }
}

/// The extension of a path's file name, if any.
pub fn path_extension<'a>(p: &'a str) -> (r: Option<&'a str>)
    ensures
        r.deep_view() == spec_ext_of(spec_file_name(p@)),
{
    let name = path_file_name(p);
    let n = name.unicode_len();
    proof {
        lemma_last_index_of(name@, '.');
    }
    match rfind_char(name, '.') {
        Some(d) => {
            if d == 0 {
                None
            } else {
                let r = name.substring_char(d + 1, n);
                proof {
                    assert(name@.subrange(d + 1, n as int) =~= name@.skip(d + 1));
                }
                Some(r)
            }
        },
        None => None,
    }
}

/// A copy of an optional string with the same view.
pub fn clone_opt(o: &Option<String>) -> (r: Option<String>)
    ensures
        r.deep_view() == o.deep_view(),
{
    match o {
        Some(x) => Some(x.clone()),
        None => None,
    }
}

/// Relies on `String::push`: appends one character to the string.
#[verifier::external_body]
pub fn string_push(s: &mut String, c: char)
    ensures
        final(s)@ == old(s)@.push(c),
{
    s.push(c);
}

/// What `str::to_lowercase` returns; the result depends on the characters
/// alone.
pub uninterp spec fn lower_of(s: Seq<char>) -> Seq<char>;

/// Relies on `str::to_lowercase`: Unicode lowercase mapping of the string,
/// a pure function of its characters.
#[verifier::external_body]
pub fn to_lowercase(s: &str) -> (r: String)
    ensures
        r@ == lower_of(s@),
{
    s.to_lowercase()
}

// ----- decimal formatting -----

/// The character of one decimal digit.
pub open spec fn digit_char(d: nat) -> char {
    ((48 + d) as u8) as char
}

/// The decimal digits of `n`, most significant first.
pub open spec fn dec_str(n: nat) -> Seq<char>
    decreases n,
{
    if n < 10 {
        seq![digit_char(n)]
    } else {
        dec_str(n / 10).push(digit_char(n % 10))
    }
}

/// Render an unsigned number in decimal.
pub fn u64_to_string(n: u64) -> (r: String)
    ensures
        r@ == dec_str(n as nat),
{
    let mut digits: Vec<char> = Vec::new();
    let d0: u8 = (n % 10) as u8;
    digits.push((48 + d0) as char);
    let mut m: u64 = n / 10;
    proof {
        if m > 0 {
            assert(digits@.reverse() =~= seq![digit_char((n % 10) as nat)]);
            assert(dec_str(n as nat) == dec_str((n as nat) / 10).push(digit_char((n as nat) % 10)));
            assert(dec_str((n as nat) / 10) + digits@.reverse() =~= dec_str((n as nat) / 10).push(
                digit_char((n as nat) % 10),
            ));
        } else {
            assert(digits@.reverse() =~= seq![digit_char(n as nat)]);
        }
    }
    while m > 0
        invariant
            m > 0 ==> dec_str(n as nat) == dec_str(m as nat) + digits@.reverse(),
            m == 0 ==> dec_str(n as nat) == digits@.reverse(),
        decreases m,
    {
        let ghost pre = digits@;
        let d: u8 = (m % 10) as u8;
        digits.push((48 + d) as char);
        proof {
            assert(digits@.reverse() =~= seq![digit_char((m % 10) as nat)] + pre.reverse());
        }
        let m2: u64 = m / 10;
        proof {
            if m2 > 0 {
                assert(dec_str(m as nat) == dec_str((m as nat) / 10).push(
                    digit_char((m as nat) % 10),
                ));
                assert(dec_str((m as nat) / 10) + digits@.reverse() =~= (dec_str((m as nat) / 10)
                    + seq![digit_char((m as nat) % 10)]) + pre.reverse());
                assert(dec_str((m as nat) / 10) + seq![digit_char((m as nat) % 10)] =~= dec_str(
                    m as nat,
                ));
            } else {
                assert(dec_str(m as nat) == seq![digit_char(m as nat)]);
                assert(seq![digit_char((m % 10) as nat)] + pre.reverse() =~= dec_str(m as nat)
                    + pre.reverse());
            }
        }
        m = m2;
    }
    let mut out = String::new();
    let k = digits.len();
    let mut i: usize = 0;
    while i < k
        invariant
            0 <= i <= k,
            k == digits@.len(),
            dec_str(n as nat) == digits@.reverse(),
            out@ == digits@.reverse().take(i as int),
        decreases k - i,
    {
        string_push(&mut out, digits[k - 1 - i]);
        proof {
            assert(digits@.reverse()[i as int] == digits@[k - 1 - i]);
            assert(out@ =~= digits@.reverse().take(i + 1));
        }
        i = i + 1;
    }
    proof {
        assert(digits@.reverse().take(k as int) =~= digits@.reverse());
    }
    out
}

/// A token count rendered for display: at least a million as tenths of a
/// million with an `M`, at least a thousand as tenths of a thousand with a
/// `K` (both rounded, halves up), anything smaller in plain decimal.
pub open spec fn spec_format_tokens(count: u64) -> Seq<char> {
    if count >= 1_000_000 {
        let t = (count as nat) / 100_000 + (if (count as nat) % 100_000 >= 50_000 {
            1nat
        } else {
            0nat
        });
        dec_str(t / 10) + seq!['.'] + seq![digit_char(t % 10)] + seq!['M']
    } else if count >= 1_000 {
        let t = (count as nat) / 100 + (if (count as nat) % 100 >= 50 {
            1nat
        } else {
            0nat
        });
        dec_str(t / 10) + seq!['.'] + seq![digit_char(t % 10)] + seq!['K']
    } else {
        dec_str(count as nat)
    }
}

/// Render a token count for display.
pub fn format_tokens(count: u64) -> (r: String)
    ensures
        r@ == spec_format_tokens(count),
{
    if count >= 1_000_000 {
        let t: u64 = count / 100_000 + (if count % 100_000 >= 50_000 {
            1u64
        } else {
            0u64
        });
        let mut out = u64_to_string(t / 10);
        string_push(&mut out, '.');
        let d: u8 = (t % 10) as u8;
        string_push(&mut out, (48 + d) as char);
        string_push(&mut out, 'M');
        proof {
            let tn = (count as nat) / 100_000 + (if (count as nat) % 100_000 >= 50_000 {
                1nat
            } else {
                0nat
            });
            assert(t as nat == tn);
            assert(out@ =~= dec_str(tn / 10) + seq!['.'] + seq![digit_char(tn % 10)] + seq!['M']);
        }
        out
    } else if count >= 1_000 {
        let t: u64 = count / 100 + (if count % 100 >= 50 {
            1u64
        } else {
            0u64
        });
        let mut out = u64_to_string(t / 10);
        string_push(&mut out, '.');
        let d: u8 = (t % 10) as u8;
        string_push(&mut out, (48 + d) as char);
        string_push(&mut out, 'K');
        proof {
            let tn = (count as nat) / 100 + (if (count as nat) % 100 >= 50 {
                1nat
            } else {
                0nat
            });
            assert(t as nat == tn);
            assert(out@ =~= dec_str(tn / 10) + seq!['.'] + seq![digit_char(tn % 10)] + seq!['K']);
        }
        out
    } else {
        u64_to_string(count)
    }
}

} // verus!
