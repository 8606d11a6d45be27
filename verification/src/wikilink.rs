//! Wikilink parsing for MagGraph edges.
//!
//! | Form | Example | Resolved target |
//! |------|---------|-----------------|
//! | Basic | `[[getting_started]]` | `getting_started` |
//! | Display alias | `[[getting_started\|Start here]]` | `getting_started` |
//! | Heading anchor | `[[welcome#intro]]` | `welcome` |
//! | Alias + heading | `[[welcome#intro\|Intro]]` | `welcome` |
//!
//! Wikilinks inside fenced code blocks (triple backticks) are ignored.
use vstd::prelude::*;
use vstd::utf8::*;

use crate::text::{
    matches_at, occurs_at, before_char, before_char_len, chars_of, find_at_or_after, find_from, lemma_find_from_props,
    is_ws, slice_vec, string_of, trim, trim_bounds, trim_end, trim_start,
};

verus! {

broadcast use vstd::utf8::char_is_scalar;

/// Raw inner text of a wikilink (before target normalization), with byte offsets.
pub struct WikilinkMatch {
    pub raw: String,
    pub start: usize,
    pub end: usize,
}

/// The closing delimiter `]]`.
pub open spec fn close_pat() -> Seq<char> {
    seq![']', ']']
}

/// The code fence delimiter.
pub open spec fn fence_pat() -> Seq<char> {
    seq!['`', '`', '`']
}

/// Target named by the inner text of a wikilink: text before `|`, then before `#`, trimmed.
pub open spec fn normalize_spec(inner: Seq<char>) -> Seq<char> {
    trim(before_char(before_char(inner, '|'), '#'))
}

/// `trim_start(s)` is a suffix of `s`.
pub proof fn lemma_trim_start_suffix(s: Seq<char>)
    ensures
        exists|a: int| 0 <= a <= s.len() && #[trigger] s.subrange(a, s.len() as int) == trim_start(s),
    decreases s.len(),
{
    if s.len() > 0 && is_ws(s[0]) {
        lemma_trim_start_suffix(s.drop_first());
        let a = choose|a: int| 0 <= a <= s.drop_first().len() && #[trigger] s.drop_first().subrange(
            a,
            s.drop_first().len() as int,
        ) == trim_start(s.drop_first());
        assert(s.subrange(a + 1, s.len() as int) =~= s.drop_first().subrange(a, s.drop_first().len() as int));
    } else {
        assert(s.subrange(0, s.len() as int) =~= s);
    }
}

/// `trim_end(s)` is a prefix of `s`.
pub proof fn lemma_trim_end_prefix(s: Seq<char>)
    ensures
        trim_end(s).len() <= s.len(),
        trim_end(s) == s.subrange(0, trim_end(s).len() as int),
    decreases s.len(),
{
    if s.len() > 0 && is_ws(s.last()) {
        lemma_trim_end_prefix(s.drop_last());
        assert(s.drop_last().subrange(0, trim_end(s).len() as int) =~= s.subrange(0, trim_end(s).len() as int));
    } else {
        assert(s.subrange(0, s.len() as int) =~= s);
    }
}

/// `trim(s)` is a piece of `s`.
pub proof fn lemma_trim_piece(s: Seq<char>)
    ensures
        exists|a: int, b: int| 0 <= a <= b <= s.len() && #[trigger] s.subrange(a, b) == trim(s),
{
    lemma_trim_start_suffix(s);
    let a = choose|a: int| 0 <= a <= s.len() && #[trigger] s.subrange(a, s.len() as int) == trim_start(s);
    let t = trim_start(s);
    lemma_trim_end_prefix(t);
    let b = a + trim_end(t).len();
    assert(s.subrange(a, b) =~= t.subrange(0, trim_end(t).len() as int));
}

/// `before_char(s, c)` is the prefix of `s` before its first `c`: it holds no `c`.
pub proof fn lemma_before_char(s: Seq<char>, c: char)
    ensures
        before_char(s, c).len() <= s.len(),
        before_char(s, c) == s.subrange(0, before_char(s, c).len() as int),
        forall|k: int| 0 <= k < before_char(s, c).len() ==> s[k] != c,
{
    lemma_find_from_props(s, seq![c], 0);
    assert forall|k: int| 0 <= k < before_char(s, c).len() implies s[k] != c by {
        if s[k] == c {
            assert(s.subrange(k, k + 1) =~= seq![c]);
            assert(occurs_at(s, seq![c], k));
        }
    }
    match find_from(s, seq![c], 0) {
        Some(j) => {},
        None => {
            assert(s.subrange(0, s.len() as int) =~= s);
        },
    }
}

/// The link target of a wikilink's inner text never holds `|` or `#`: it is a piece of
/// the text lying before the first `|` and before the first `#`, trimmed, and when the
/// text holds neither it is the whole text trimmed.
pub proof fn law_normalize_target(inner: Seq<char>)
    ensures
        !normalize_spec(inner).contains('|'),
        !normalize_spec(inner).contains('#'),
        exists|a: int, b: int|
            0 <= a <= b <= inner.len() && #[trigger] inner.subrange(a, b) == normalize_spec(inner)
                && forall|k: int| 0 <= k < b ==> inner[k] != '|' && inner[k] != '#',
        (forall|k: int| 0 <= k < inner.len() ==> inner[k] != '|' && inner[k] != '#') ==> normalize_spec(
            inner,
        ) == trim(inner),
{
    let s1 = before_char(inner, '|');
    let s2 = before_char(s1, '#');
    lemma_before_char(inner, '|');
    lemma_before_char(s1, '#');
    lemma_trim_piece(s2);
    let (a, b) = choose|a: int, b: int| 0 <= a <= b <= s2.len() && #[trigger] s2.subrange(a, b) == trim(s2);
    assert(inner.subrange(a, b) =~= s2.subrange(a, b));
    let t = normalize_spec(inner);
    assert forall|k: int| 0 <= k < b implies inner[k] != '|' && inner[k] != '#' by {
        assert(s2[k] == s1[k]);
        assert(s1[k] == inner[k]);
    }
    if t.contains('|') {
        let i = choose|i: int| 0 <= i < t.len() && t[i] == '|';
        assert(inner[a + i] == t[i]);
    }
    if t.contains('#') {
        let i = choose|i: int| 0 <= i < t.len() && t[i] == '#';
        assert(inner[a + i] == t[i]);
    }
    if forall|k: int| 0 <= k < inner.len() ==> inner[k] != '|' && inner[k] != '#' {
        lemma_find_from_props(inner, seq!['|'], 0);
        lemma_find_from_props(s1, seq!['#'], 0);
        if find_from(inner, seq!['|'], 0) is Some {
            let j = find_from(inner, seq!['|'], 0)->0;
            assert(inner.subrange(j, j + 1) =~= seq!['|']);
            assert(inner.subrange(j, j + 1)[0] == inner[j]);
            assert(seq!['|'][0] == '|');
            assert(inner[j] == '|');
        }
        assert(s1 == inner);
        if find_from(s1, seq!['#'], 0) is Some {
            let j = find_from(s1, seq!['#'], 0)->0;
            assert(s1.subrange(j, j + 1) =~= seq!['#']);
            assert(s1.subrange(j, j + 1)[0] == s1[j]);
            assert(seq!['#'][0] == '#');
            assert(s1[j] == '#');
        }
        assert(s2 == inner);
    }
}

/// Every link target extracted from a body is non-empty and holds no `|` or `#`.
pub proof fn law_targets_clean(body: Seq<char>)
    ensures
        forall|i: int| 0 <= i < wikilink_targets(body).len() ==> (#[trigger] wikilink_targets(body)[i]).len() > 0
            && !wikilink_targets(body)[i].contains('|') && !wikilink_targets(body)[i].contains('#'),
{
    lemma_collect_targets_from(raw_links(strip_fenced(body)));
    lemma_collect_targets_props(raw_links(strip_fenced(body)));
    let raws = raw_links(strip_fenced(body));
    assert forall|i: int| 0 <= i < wikilink_targets(body).len() implies (#[trigger] wikilink_targets(body)[i]).len() > 0
        && !wikilink_targets(body)[i].contains('|') && !wikilink_targets(body)[i].contains('#') by {
        let j = choose|j: int| 0 <= j < raws.len() && collect_targets(raws)[i] == normalize_spec(raws[j]);
        law_normalize_target(raws[j]);
    }
}

/// Each collected target is the normalized form of one of the raw links.
pub proof fn lemma_collect_targets_from(raws: Seq<Seq<char>>)
    ensures
        forall|i: int| 0 <= i < collect_targets(raws).len() ==> exists|j: int|
            0 <= j < raws.len() && #[trigger] collect_targets(raws)[i] == normalize_spec(raws[j]),
    decreases raws.len(),
{
    if raws.len() > 0 {
        let d = raws.drop_last();
        lemma_collect_targets_from(d);
        assert forall|i: int| 0 <= i < collect_targets(raws).len() implies exists|j: int|
            0 <= j < raws.len() && #[trigger] collect_targets(raws)[i] == normalize_spec(raws[j]) by {
            let prev = collect_targets(d);
            if i < prev.len() {
                assert(collect_targets(raws)[i] == prev[i]);
                let j = choose|j: int| 0 <= j < d.len() && prev[i] == normalize_spec(d[j]);
                assert(d[j] == raws[j]);
            } else {
                assert(collect_targets(raws)[i] == normalize_spec(raws[raws.len() - 1]));
            }
        }
    }
}

/// Normalize wikilink inner text to a link target (id or path stem).
///
/// Strips display aliases (`target|alias`) and heading fragments (`target#heading`).
pub fn normalize_wikilink_target(inner: &str) -> (r: String)
    ensures
        r@ == normalize_spec(inner@),
{
    let cs = chars_of(inner);
    let r = normalize_chars(cs.as_slice());
    string_of(r.as_slice())
}

pub fn normalize_chars(cs: &[char]) -> (r: Vec<char>)
    ensures
        r@ == normalize_spec(cs@),
{
    let n1 = before_char_len(cs, '|');
    let s1 = slice_vec(cs, 0, n1);
    let n2 = before_char_len(s1.as_slice(), '#');
    let s2 = slice_vec(s1.as_slice(), 0, n2);
    let (a, b) = trim_bounds(s2.as_slice());
    slice_vec(s2.as_slice(), a, b)
}

/// Positions `(k, j)` of wikilinks found scanning `s` from index `k`: `[[` at `k`,
/// and the first `]]` at or after `k + 2` at `j`. Scanning resumes after the `]]`.
pub open spec fn scan_links(s: Seq<char>, k: int) -> Seq<(int, int)>
    decreases s.len() - k,
{
    if k < 0 || k + 1 >= s.len() {
        seq![]
    } else if s[k] == '[' && s[k + 1] == '[' {
        match find_from(s, close_pat(), k + 2) {
            Some(j) => {
                proof {
                    lemma_find_from_props(s, close_pat(), k + 2);
                }
                seq![(k, j)] + scan_links(s, j + 2)
            },
            None => scan_links(s, k + 1),
        }
    } else {
        scan_links(s, k + 1)
    }
}

/// Raw inner texts of the wikilinks in `s`, in document order.
pub open spec fn raw_links(s: Seq<char>) -> Seq<Seq<char>> {
    scan_links(s, 0).map_values(|p: (int, int)| s.subrange(p.0 + 2, p.1))
}

/// Number of UTF-8 bytes that encode `s`.
pub open spec fn byte_len(s: Seq<char>) -> nat {
    encode_utf8(s).len()
}

/// Wikilink matches of `s` as `(raw, start byte, end byte)`.
pub open spec fn match_triples(s: Seq<char>) -> Seq<(Seq<char>, int, int)> {
    scan_links(s, 0).map_values(
        |p: (int, int)|
            (s.subrange(p.0 + 2, p.1), byte_len(s.take(p.0)) as int, byte_len(s.take(p.1 + 2)) as int),
    )
}

pub open spec fn match_view(m: WikilinkMatch) -> (Seq<char>, int, int) {
    (m.raw@, m.start as int, m.end as int)
}

pub proof fn lemma_scan_bounds(s: Seq<char>, k: int)
    requires
        0 <= k,
    ensures
        forall|i: int|
            0 <= i < scan_links(s, k).len() ==> k <= #[trigger] scan_links(s, k)[i].0 && scan_links(
                s,
                k,
            )[i].0 + 2 <= scan_links(s, k)[i].1 && scan_links(s, k)[i].1 + 2 <= s.len(),
    decreases s.len() - k,
{
    if k + 1 >= s.len() {
    } else if s[k] == '[' && s[k + 1] == '[' {
        lemma_find_from_props(s, close_pat(), k + 2);
        match find_from(s, close_pat(), k + 2) {
            Some(j) => {
                lemma_scan_bounds(s, j + 2);
                let rest = scan_links(s, j + 2);
                assert(scan_links(s, k) == seq![(k, j)] + rest);
                assert forall|i: int| 0 <= i < scan_links(s, k).len() implies k <= #[trigger] scan_links(
                    s,
                    k,
                )[i].0 && scan_links(s, k)[i].0 + 2 <= scan_links(s, k)[i].1 && scan_links(
                    s,
                    k,
                )[i].1 + 2 <= s.len() by {
                    if i > 0 {
                        assert(scan_links(s, k)[i] == rest[i - 1]);
                    }
                }
            },
            None => {
                assert(scan_links(s, k) == scan_links(s, k + 1));
                lemma_scan_bounds(s, k + 1);
            },
        }
    } else {
        assert(scan_links(s, k) == scan_links(s, k + 1));
        lemma_scan_bounds(s, k + 1);
    }
}

/// Positions of all wikilinks in `s` (see [`scan_links`]).
pub fn scan_pairs(s: &[char]) -> (r: Vec<(usize, usize)>)
    ensures
        r@.map_values(|p: (usize, usize)| (p.0 as int, p.1 as int)) == scan_links(s@, 0),
{
    let ghost full = scan_links(s@, 0);
    let mut out: Vec<(usize, usize)> = Vec::new();
    let mut k: usize = 0;
    let close = vec![']', ']'];
    assert(close@ =~= close_pat());
    while k < s.len() && k + 1 < s.len()
        invariant
            k <= s.len(),
            close@ == close_pat(),
            full == scan_links(s@, 0),
            full == out@.map_values(|p: (usize, usize)| (p.0 as int, p.1 as int)) + scan_links(
                s@,
                k as int,
            ),
        decreases s.len() - k,
    {
        let ghost before = out@.map_values(|p: (usize, usize)| (p.0 as int, p.1 as int));
        if s[k] == '[' && s[k + 1] == '[' {
            match find_at_or_after(s, close.as_slice(), k + 2) {
                Some(j) => {
                    proof {
                        lemma_find_from_props(s@, close_pat(), k + 2);
                    }
                    out.push((k, j));
                    assert(out@.map_values(|p: (usize, usize)| (p.0 as int, p.1 as int))
                        =~= before.push((k as int, j as int)));
                    assert(scan_links(s@, k as int) == seq![(k as int, j as int)] + scan_links(
                        s@,
                        j + 2,
                    ));
                    assert(before.push((k as int, j as int)) + scan_links(s@, j + 2) =~= before + (
                    seq![(k as int, j as int)] + scan_links(s@, j + 2)));
                    k = j + 2;
                },
                None => {
                    k = k + 1;
                },
            }
        } else {
            k = k + 1;
        }
    }
    assert(scan_links(s@, k as int) == Seq::<(int, int)>::empty());
    assert(full =~= out@.map_values(|p: (usize, usize)| (p.0 as int, p.1 as int)));
    out
}


pub proof fn lemma_encode_concat(a: Seq<char>, b: Seq<char>)
    ensures
        encode_utf8(a + b) == encode_utf8(a) + encode_utf8(b),
    decreases a.len(),
{
    if a.len() == 0 {
        assert(a + b =~= b);
        assert(encode_utf8(a) + encode_utf8(b) =~= encode_utf8(b));
    } else {
        lemma_encode_concat(a.drop_first(), b);
        assert((a + b).drop_first() =~= a.drop_first() + b);
        assert((a + b)[0] == a[0]);
        assert(encode_utf8(a + b) =~= encode_utf8(a) + encode_utf8(b));
    }
}

pub proof fn lemma_byte_len_step(s: Seq<char>, k: int)
    requires
        0 <= k < s.len(),
    ensures
        byte_len(s.take(k + 1)) == byte_len(s.take(k)) + encode_scalar(s[k] as u32).len(),
{
    assert(s.take(k + 1) =~= s.take(k) + seq![s[k]]);
    lemma_encode_concat(s.take(k), seq![s[k]]);
    assert(seq![s[k]].drop_first() =~= Seq::<char>::empty());
    assert(encode_utf8(Seq::<char>::empty()) =~= Seq::<u8>::empty());
    assert(encode_utf8(seq![s[k]]) =~= encode_scalar(s[k] as u32));
}

pub proof fn lemma_byte_len_take_le(s: Seq<char>, k: int)
    requires
        0 <= k <= s.len(),
    ensures
        byte_len(s.take(k)) <= byte_len(s),
{
    assert(s =~= s.take(k) + s.skip(k));
    lemma_encode_concat(s.take(k), s.skip(k));
}

/// Number of UTF-8 bytes of `c`.
pub fn char_utf8_len(c: char) -> (n: usize)
    ensures
        n == encode_scalar(c as u32).len(),
{
    let u = c as u32;
    if u <= 0x7F {
        1
    } else if u <= 0x7FF {
        2
    } else if u <= 0xFFFF {
        3
    } else {
        4
    }
}


/// Exact number of UTF-8 bytes encoding `s` (never overflows: at most four per character).
pub fn utf8_byte_count(s: &[char]) -> (n: u128)
    ensures
        n == byte_len(s@),
{
    let mut n: u128 = 0;
    let mut i: usize = 0;
    assert(s@.take(0) =~= Seq::<char>::empty());
    while i < s.len()
        invariant
            i <= s.len(),
            n == byte_len(s@.take(i as int)),
            n <= 4 * i,
        decreases s.len() - i,
    {
        proof {
            lemma_byte_len_step(s@, i as int);
        }
        n = n + char_utf8_len(s[i]) as u128;
        i = i + 1;
    }
    assert(s@.take(s.len() as int) =~= s@);
    n
}

/// `r[i]` is the byte offset of character `i` of `s` (for `i <= s.len()`).
pub fn byte_offsets(s: &[char]) -> (r: Vec<usize>)
    requires
        byte_len(s@) <= usize::MAX,
    ensures
        r.len() == s.len() + 1,
        forall|i: int| 0 <= i <= s.len() ==> r@[i] == byte_len(s@.take(i)),
{
    let mut r: Vec<usize> = Vec::new();
    let mut p: usize = 0;
    let mut i: usize = 0;
    assert(s@.take(0) =~= Seq::<char>::empty());
    r.push(0);
    while i < s.len()
        invariant
            i <= s.len(),
            byte_len(s@) <= usize::MAX,
            r.len() == i + 1,
            p == byte_len(s@.take(i as int)),
            forall|m: int| 0 <= m <= i ==> r@[m] == byte_len(s@.take(m)),
        decreases s.len() - i,
    {
        proof {
            lemma_byte_len_step(s@, i as int);
            lemma_byte_len_take_le(s@, i + 1);
        }
        p = p + char_utf8_len(s[i]);
        r.push(p);
        i = i + 1;
    }
    r
}

/// Extract wikilink matches with byte offsets (after stripping fenced blocks: the offsets
/// are those in the text without them).
pub fn extract_wikilinks(body: &str) -> (r: Vec<WikilinkMatch>)
    requires
        byte_len(strip_fenced(body@)) <= usize::MAX,
    ensures
        r@.map_values(|m: WikilinkMatch| match_view(m)) == match_triples(strip_fenced(body@)),
{
    let cs = strip_fenced_code_blocks(chars_of(body).as_slice());
    let pairs = scan_pairs(cs.as_slice());
    let offs = byte_offsets(cs.as_slice());
    let ghost pv = pairs@.map_values(|p: (usize, usize)| (p.0 as int, p.1 as int));
    proof {
        lemma_scan_bounds(cs@, 0);
    }
    let mut out: Vec<WikilinkMatch> = Vec::new();
    let mut i: usize = 0;
    while i < pairs.len()
        invariant
            i <= pairs.len(),
            cs@ == strip_fenced(body@),
            pv == pairs@.map_values(|p: (usize, usize)| (p.0 as int, p.1 as int)),
            pv == scan_links(cs@, 0),
            offs.len() == cs.len() + 1,
            forall|m: int| 0 <= m <= cs.len() ==> offs@[m] == byte_len(cs@.take(m)),
            forall|m: int|
                0 <= m < pv.len() ==> 0 <= #[trigger] pv[m].0 && pv[m].0 + 2 <= pv[m].1 && pv[m].1
                    + 2 <= cs@.len(),
            out@.map_values(|m: WikilinkMatch| match_view(m)) =~= match_triples(strip_fenced(body@)).take(
                i as int,
            ),
        decreases pairs.len() - i,
    {
        let (a, j) = pairs[i];
        assert(pv[i as int] == (a as int, j as int));
        let raw = string_of(slice_vec(cs.as_slice(), a + 2, j).as_slice());
        assert(match_triples(strip_fenced(body@))[i as int] == (
            cs@.subrange(a + 2, j as int),
            offs@[a as int] as int,
            offs@[j + 2] as int,
        ));
        let ghost old_v = out@.map_values(|m: WikilinkMatch| match_view(m));
        let m = WikilinkMatch { raw, start: offs[a], end: offs[j + 2] };
        assert(match_view(m) == match_triples(strip_fenced(body@))[i as int]);
        out.push(m);
        assert(out@.map_values(|m: WikilinkMatch| match_view(m)) =~= old_v.push(match_view(m)));
        assert(match_triples(strip_fenced(body@)).take(i + 1) =~= match_triples(strip_fenced(body@)).take(i as int).push(
            match_triples(strip_fenced(body@))[i as int],
        ));
        i = i + 1;
        assert(out@.map_values(|m: WikilinkMatch| match_view(m)) =~= match_triples(strip_fenced(body@)).take(
            i as int,
        ));
    }
    out
}

/// Text of `s` from index `k` with fenced code blocks removed; the other characters
/// are kept as they are.
pub open spec fn strip_from(s: Seq<char>, k: int) -> Seq<char>
    decreases s.len() - k,
{
    if k < 0 || k >= s.len() {
        seq![]
    } else if occurs_at(s, fence_pat(), k) && find_from(s, fence_pat(), k + 3) is Some {
        let j = find_from(s, fence_pat(), k + 3)->0;
        proof {
            lemma_find_from_props(s, fence_pat(), k + 3);
        }
        strip_from(s, j + 3)
    } else {
        seq![s[k]] + strip_from(s, k + 1)
    }
}

pub open spec fn strip_fenced(s: Seq<char>) -> Seq<char> {
    strip_from(s, 0)
}

fn strip_fenced_code_blocks(text: &[char]) -> (r: Vec<char>)
    ensures
        r@ == strip_fenced(text@),
{
    let fence = vec!['`', '`', '`'];
    assert(fence@ =~= fence_pat());
    let mut out: Vec<char> = Vec::new();
    let mut k: usize = 0;
    while k < text.len()
        invariant
            k <= text.len(),
            fence@ == fence_pat(),
            strip_fenced(text@) == out@ + strip_from(text@, k as int),
        decreases text.len() - k,
    {
        let ghost before = out@;
        if matches_at(text, fence.as_slice(), k) {
            match find_at_or_after(text, fence.as_slice(), k + 3) {
                Some(j) => {
                    proof {
                        lemma_find_from_props(text@, fence_pat(), k + 3);
                    }
                    k = j + 3;
                    continue;
                },
                None => {},
            }
        }
        out.push(text[k]);
        assert(before + (seq![text@[k as int]] + strip_from(text@, k + 1)) =~= out@
            + strip_from(text@, k + 1));
        k = k + 1;
    }
    assert(out@ + strip_from(text@, k as int) =~= out@);
    out
}

/// Targets of `raws` after normalization: empty targets dropped, first occurrence kept.
pub open spec fn collect_targets(raws: Seq<Seq<char>>) -> Seq<Seq<char>>
    decreases raws.len(),
{
    if raws.len() == 0 {
        seq![]
    } else {
        let d = collect_targets(raws.drop_last());
        let t = normalize_spec(raws.last());
        if t.len() == 0 || d.contains(t) {
            d
        } else {
            d.push(t)
        }
    }
}

/// Link targets of a Markdown body: wikilinks outside fenced code blocks, normalized,
/// empty ones dropped, duplicates removed keeping document order.
pub open spec fn wikilink_targets(body: Seq<char>) -> Seq<Seq<char>> {
    collect_targets(raw_links(strip_fenced(body)))
}

pub proof fn lemma_collect_targets_props(raws: Seq<Seq<char>>)
    ensures
        collect_targets(raws).no_duplicates(),
        forall|i: int|
            0 <= i < collect_targets(raws).len() ==> #[trigger] collect_targets(raws)[i].len() > 0,
    decreases raws.len(),
{
    if raws.len() > 0 {
        lemma_collect_targets_props(raws.drop_last());
    }
}


pub fn contains_string(v: &Vec<String>, t: &String) -> (b: bool)
    ensures
        b == v@.map_values(|x: String| x@).contains(t@),
{
    let mut i: usize = 0;
    while i < v.len()
        invariant
            i <= v.len(),
            forall|m: int| 0 <= m < i ==> v@[m]@ != t@,
        decreases v.len() - i,
    {
        if v[i] == *t {
            assert(v@.map_values(|x: String| x@)[i as int] == t@);
            return true;
        }
        i = i + 1;
    }
    let ghost vv = v@.map_values(|x: String| x@);
    assert forall|m: int| 0 <= m < vv.len() implies #[trigger] vv[m] != t@ by {
        assert(vv[m] == v@[m]@);
    }
    false
}

/// Extract all wikilink targets from markdown body text.
///
/// Returns deduplicated, non-empty targets in document order (first occurrence wins).
pub fn extract_wikilink_targets(body: &str) -> (r: Vec<String>)
    ensures
        r@.map_values(|t: String| t@) == wikilink_targets(body@),
        r@.map_values(|t: String| t@).no_duplicates(),
        forall|i: int| 0 <= i < r@.len() ==> #[trigger] r@[i]@.len() > 0,
{
    let cs = chars_of(body);
    let stripped = strip_fenced_code_blocks(cs.as_slice());
    let pairs = scan_pairs(stripped.as_slice());
    let ghost pv = pairs@.map_values(|p: (usize, usize)| (p.0 as int, p.1 as int));
    let ghost raws = raw_links(stripped@);
    proof {
        lemma_scan_bounds(stripped@, 0);
    }
    let mut out: Vec<String> = Vec::new();
    let mut i: usize = 0;
    while i < pairs.len()
        invariant
            i <= pairs.len(),
            pv == pairs@.map_values(|p: (usize, usize)| (p.0 as int, p.1 as int)),
            pv == scan_links(stripped@, 0),
            raws == raw_links(stripped@),
            forall|m: int|
                0 <= m < pv.len() ==> 0 <= #[trigger] pv[m].0 && pv[m].0 + 2 <= pv[m].1 && pv[m].1
                    + 2 <= stripped@.len(),
            out@.map_values(|t: String| t@) == collect_targets(raws.take(i as int)),
        decreases pairs.len() - i,
    {
        let (a, j) = pairs[i];
        assert(pv[i as int] == (a as int, j as int));
        let raw = slice_vec(stripped.as_slice(), a + 2, j);
        assert(raw@ == raws[i as int]);
        let t = normalize_chars(raw.as_slice());
        assert(raws.take(i + 1).drop_last() =~= raws.take(i as int));
        assert(raws.take(i + 1).last() == raws[i as int]);
        if t.len() > 0 {
            let ts = string_of(t.as_slice());
            if !contains_string(&out, &ts) {
                let ghost old_v = out@.map_values(|x: String| x@);
                out.push(ts);
                assert(out@.map_values(|x: String| x@) =~= old_v.push(t@));
            }
        }
        i = i + 1;
    }
    assert(raws.take(pairs.len() as int) =~= raws);
    proof {
        lemma_collect_targets_props(raws);
        let ov = out@.map_values(|x: String| x@);
        assert forall|i: int| 0 <= i < out@.len() implies #[trigger] out@[i]@.len() > 0 by {
            assert(ov[i] == out@[i]@);
        }
    }
    out
}

} // verus!
