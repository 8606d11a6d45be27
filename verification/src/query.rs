//! Filtered keyword search over the index, change listing and body summaries.
use vstd::prelude::*;

use crate::index::{EntryView, GraphIndex, NodeIndexEntry};
use crate::node::{extra_get, extra_lookup, extra_view, strings_view, ExtraView, Node};
use crate::order::{seq_lt, sort_dedup, str_lt, strictly_sorted, string_views};
use crate::path::{split_chars, split_seq};
use crate::text::{
    chars_of, extend_chars, find_at_or_after, is_ws_exec, lower_seq, seq_contains, slice_vec,
    string_of, to_ascii_lowercase, trim, trim_bounds,
};
use crate::yaml::{as_bool_spec, search_text, tags_spec, YamlValue, YamlView};

verus! {

/// A line without the `\r` of a `\r\n` ending.
pub open spec fn strip_cr(l: Seq<char>) -> Seq<char> {
    if l.len() > 0 && l.last() == '\r' {
        l.drop_last()
    } else {
        l
    }
}

/// Lines of `s` as `str::lines` yields them: split at `\n`, a `\r` before the `\n`
/// dropped, and no empty line after a final line break.
pub open spec fn text_lines(s: Seq<char>) -> Seq<Seq<char>> {
    let segs = split_seq(s, '\n');
    if segs.len() == 0 {
        seq![]
    } else {
        segs.drop_last().map_values(|l: Seq<char>| strip_cr(l)) + if segs.last().len() > 0 {
            seq![segs.last()]
        } else {
            seq![]
        }
    }
}

/// The first `n` lines of `lines` that are not blank.
pub open spec fn nonblank_prefix(lines: Seq<Seq<char>>, n: nat) -> Seq<Seq<char>>
    decreases lines.len(),
{
    if lines.len() == 0 || n == 0 {
        seq![]
    } else if trim(lines[0]).len() > 0 {
        seq![lines[0]] + nonblank_prefix(lines.drop_first(), (n - 1) as nat)
    } else {
        nonblank_prefix(lines.drop_first(), n)
    }
}

/// `parts` joined with `sep` between consecutive parts.
pub open spec fn join_seqs(parts: Seq<Seq<char>>, sep: Seq<char>) -> Seq<char>
    decreases parts.len(),
{
    if parts.len() == 0 {
        seq![]
    } else if parts.len() == 1 {
        parts[0]
    } else {
        join_seqs(parts.drop_last(), sep) + sep + parts.last()
    }
}

/// Summary of a body: its first three non-blank lines joined by line breaks, cut to
/// 280 characters.
pub open spec fn summary_spec(body: Seq<char>) -> Seq<char> {
    let joined = join_seqs(nonblank_prefix(text_lines(body), 3), seq!['\n']);
    if joined.len() > 280 {
        joined.subrange(0, 280)
    } else {
        joined
    }
}

/// Lines of `s` (see [`text_lines`]).
fn lines_of(s: &[char]) -> (r: Vec<Vec<char>>)
    ensures
        r@.map_values(|v: Vec<char>| v@) == text_lines(s@),
{
    let segs = split_chars(s, '\n');
    let ghost sv = segs@.map_values(|v: Vec<char>| v@);
    let mut out: Vec<Vec<char>> = Vec::new();
    if segs.len() == 0 {
        assert(out@.map_values(|v: Vec<char>| v@) =~= text_lines(s@));
        return out;
    }
    let mut i: usize = 0;
    while i + 1 < segs.len()
        invariant
            i + 1 <= segs.len(),
            sv == segs@.map_values(|v: Vec<char>| v@),
            sv == split_seq(s@, '\n'),
            out@.map_values(|v: Vec<char>| v@) =~= sv.take(i as int).map_values(
                |l: Seq<char>| strip_cr(l),
            ),
        decreases segs.len() - i,
    {
        let seg = &segs[i];
        assert(seg@ == sv[i as int]);
        let n = if seg.len() > 0 && seg[seg.len() - 1] == '\r' {
            seg.len() - 1
        } else {
            seg.len()
        };
        let line = slice_vec(seg.as_slice(), 0, n);
        assert(line@ =~= strip_cr(sv[i as int]));
        let ghost before = out@.map_values(|v: Vec<char>| v@);
        out.push(line);
        assert(out@.map_values(|v: Vec<char>| v@) =~= before.push(strip_cr(sv[i as int])));
        assert(sv.take(i + 1).map_values(|l: Seq<char>| strip_cr(l)) =~= sv.take(i as int).map_values(
            |l: Seq<char>| strip_cr(l),
        ).push(strip_cr(sv[i as int])));
        i = i + 1;
    }
    assert(sv.take(i as int) =~= sv.drop_last());
    let last = &segs[segs.len() - 1];
    assert(last@ == sv.last());
    if last.len() > 0 {
        let l = slice_vec(last.as_slice(), 0, last.len());
        assert(l@ =~= last@);
        out.push(l);
    }
    assert(out@.map_values(|v: Vec<char>| v@) =~= text_lines(s@));
    out
}

/// Whether a line is blank.
fn blank_line(l: &[char]) -> (b: bool)
    ensures
        b == (trim(l@).len() == 0),
{
    let (a, z) = trim_bounds(l);
    a == z
}

/// Summary of a body (see [`summary_spec`]).
pub fn summarize_text(body: &str) -> (r: String)
    ensures
        r@ == summary_spec(body@),
{
    let cs = chars_of(body);
    let lines = lines_of(cs.as_slice());
    let ghost lv = lines@.map_values(|v: Vec<char>| v@);
    let mut picked: Vec<Vec<char>> = Vec::new();
    let mut i: usize = 0;
    assert(lv.subrange(0, lv.len() as int) =~= lv);
    assert(picked@.map_values(|v: Vec<char>| v@) =~= Seq::<Seq<char>>::empty());
    while i < lines.len() && picked.len() < 3
        invariant
            i <= lines.len(),
            picked.len() <= 3,
            lv == lines@.map_values(|v: Vec<char>| v@),
            picked@.map_values(|v: Vec<char>| v@) + nonblank_prefix(
                lv.subrange(i as int, lv.len() as int),
                (3 - picked.len()) as nat,
            ) == nonblank_prefix(lv, 3),
        decreases lines.len() - i,
    {
        let ghost rest = lv.subrange(i as int, lv.len() as int);
        assert(rest[0] == lines@[i as int]@);
        assert(rest.drop_first() =~= lv.subrange(i + 1, lv.len() as int));
        let ghost before = picked@.map_values(|v: Vec<char>| v@);
        if !blank_line(lines[i].as_slice()) {
            let l = slice_vec(lines[i].as_slice(), 0, lines[i].len());
            assert(l@ =~= lines@[i as int]@);
            picked.push(l);
            assert(picked@.map_values(|v: Vec<char>| v@) =~= before.push(rest[0]));
            assert(before.push(rest[0]) + nonblank_prefix(rest.drop_first(), (3 - picked.len()) as nat)
                =~= before + (seq![rest[0]] + nonblank_prefix(rest.drop_first(), (3 - picked.len()) as nat)));
        }
        i = i + 1;
    }
    let ghost pv = picked@.map_values(|v: Vec<char>| v@);
    assert(pv == nonblank_prefix(lv, 3)) by {
        let rest = lv.subrange(i as int, lv.len() as int);
        assert(rest.len() == 0 || 3 - picked.len() == 0);
        assert(pv + nonblank_prefix(rest, (3 - picked.len()) as nat) =~= pv);
    }
    let mut joined: Vec<char> = Vec::new();
    let mut k: usize = 0;
    while k < picked.len()
        invariant
            k <= picked.len(),
            pv == picked@.map_values(|v: Vec<char>| v@),
            joined@ == join_seqs(pv.take(k as int), seq!['\n']),
        decreases picked.len() - k,
    {
        let ghost prev = pv.take(k as int);
        if k > 0 {
            joined.push('\n');
        }
        extend_chars(&mut joined, picked[k].as_slice());
        k = k + 1;
        let ghost now = pv.take(k as int);
        assert(now.drop_last() =~= prev);
        assert(now.last() == picked@[k - 1]@);
        if k == 1 {
            assert(joined@ =~= now[0]);
        } else {
            assert(joined@ =~= join_seqs(prev, seq!['\n']) + seq!['\n'] + now.last());
        }
    }
    assert(pv.take(picked.len() as int) =~= pv);
    let n = if joined.len() > 280 {
        280
    } else {
        joined.len()
    };
    string_of(slice_vec(joined.as_slice(), 0, n).as_slice())
}


#[derive(Debug, Clone, PartialEq, Eq, Default)]
pub struct QueryOptions {
    pub text: Option<String>,
    pub node_type: Option<String>,
    pub tags: Vec<String>,
    pub include_suppressed: bool,
    pub limit: usize,
    pub modified_since_unix: Option<i64>,
}

#[derive(Debug, Clone, PartialEq, Eq)]
pub struct SearchResult {
    pub id: String,
    pub node_type: String,
    pub relative_path: String,
    pub score: i32,
    pub matched: Vec<String>,
    pub summary: String,
    pub modified_unix: Option<i64>,
}

#[derive(Debug, Clone, PartialEq, Eq)]
pub struct GraphChange {
    pub id: String,
    pub relative_path: String,
    pub modified_unix: i64,
}

/// Whether the node is marked `suppressed: true`.
pub open spec fn suppressed_spec(extra: ExtraView) -> bool {
    match extra_lookup(extra, "suppressed"@) {
        Some(v) => as_bool_spec(v) == Some(true),
        None => false,
    }
}

/// Whether the node carries every required tag (compared in ASCII lowercase).
pub open spec fn tags_match_spec(extra: ExtraView, required: Seq<Seq<char>>) -> bool {
    let tags = match extra_lookup(extra, "tags"@) {
        Some(v) => tags_spec(v),
        None => seq![],
    };
    required.len() == 0 || forall|i: int| 0 <= i < required.len() ==> tags.map_values(
        |t: Seq<char>| lower_seq(t),
    ).contains(lower_seq(#[trigger] required[i]))
}

/// `value` contains `needle` when lowercased.
pub open spec fn hit(value: Seq<char>, needle: Seq<char>) -> bool {
    seq_contains(lower_seq(value), needle)
}

/// Searchable parts of an entry with their weights and labels: id, type, body, each link,
/// each extra key and value.
pub open spec fn entry_parts(id: Seq<char>, e: EntryView) -> Seq<(Seq<char>, int, Seq<char>)> {
    seq![(id, 30int, "id"@), (e.metadata.node_type, 12int, "type"@), (e.body, 6int, "body"@)]
        + e.metadata.links.map_values(|l: Seq<char>| (l, 10int, "links"@)) + extra_parts(
        e.metadata.extra,
    )
}

/// Searchable parts of frontmatter extras: each key, then its value's text.
pub open spec fn extra_parts(extra: ExtraView) -> Seq<(Seq<char>, int, Seq<char>)>
    decreases extra.len(),
{
    if extra.len() == 0 {
        seq![]
    } else {
        extra_parts(extra.drop_last()) + seq![
            (extra.last().0, 4int, "frontmatter"@),
            (search_text(extra.last().1), 4int, "frontmatter"@),
        ]
    }
}

/// Total weight of the parts that contain `needle`.
pub open spec fn parts_score(parts: Seq<(Seq<char>, int, Seq<char>)>, needle: Seq<char>) -> int
    decreases parts.len(),
{
    if parts.len() == 0 {
        0
    } else {
        parts_score(parts.drop_last(), needle) + if hit(parts.last().0, needle) {
            parts.last().1
        } else {
            0
        }
    }
}

/// Labels of the parts that contain `needle`, in order.
pub open spec fn parts_labels(parts: Seq<(Seq<char>, int, Seq<char>)>, needle: Seq<char>) -> Seq<Seq<char>>
    decreases parts.len(),
{
    if parts.len() == 0 {
        seq![]
    } else {
        let prev = parts_labels(parts.drop_last(), needle);
        if hit(parts.last().0, needle) {
            prev.push(parts.last().2)
        } else {
            prev
        }
    }
}

/// Abstract form of a search hit.
pub struct HitView {
    pub id: Seq<char>,
    pub node_type: Seq<char>,
    pub relative_path: Seq<char>,
    pub score: int,
    pub matched: Set<Seq<char>>,
    pub summary: Seq<char>,
    pub modified: Option<i64>,
}

pub open spec fn hit_view(r: SearchResult) -> HitView {
    HitView {
        id: r.id@,
        node_type: r.node_type@,
        relative_path: r.relative_path@,
        score: r.score as int,
        matched: string_views(r.matched@).to_set(),
        summary: r.summary@,
        modified: r.modified_unix,
    }
}

/// Search hit for entry `e` modified at `modified`, if it passes the filters and scores.
pub open spec fn hit_for(e: EntryView, modified: Option<i64>, o: QueryOptions, needle: Seq<char>) -> Option<HitView> {
    let id = e.metadata.id;
    if o.node_type is Some && e.metadata.node_type != o.node_type->0@ {
        None
    } else if !o.include_suppressed && suppressed_spec(e.metadata.extra) {
        None
    } else if !tags_match_spec(e.metadata.extra, strings_view(o.tags@)) {
        None
    } else if o.modified_since_unix is Some && (modified is None || modified->0
        <= o.modified_since_unix->0) {
        None
    } else {
        let parts = entry_parts(id, e);
        let score = if needle.len() == 0 {
            1
        } else {
            let t = parts_score(parts, needle);
            if t > i32::MAX {
                i32::MAX as int
            } else {
                t
            }
        };
        let labels = if needle.len() == 0 {
            seq!["all"@]
        } else {
            parts_labels(parts, needle)
        };
        if score <= 0 {
            None
        } else {
            Some(
                HitView {
                    id,
                    node_type: e.metadata.node_type,
                    relative_path: e.relative_path,
                    score,
                    matched: labels.to_set(),
                    summary: e.summary,
                    modified,
                },
            )
        }
    }
}

/// Hits for the entries, in index order.
pub open spec fn hits(es: Seq<EntryView>, modified: Seq<Option<i64>>, o: QueryOptions, needle: Seq<char>) -> Seq<HitView>
    decreases es.len(),
{
    if es.len() == 0 {
        seq![]
    } else {
        let prev = hits(es.drop_last(), modified.take(es.len() - 1), o, needle);
        match hit_for(es.last(), modified[es.len() - 1], o, needle) {
            Some(h) => prev.push(h),
            None => prev,
        }
    }
}

/// `a` ranks before `b`: higher score, then more recently modified, then smaller id.
pub open spec fn ranks_before(a: HitView, b: HitView) -> bool {
    a.score > b.score || (a.score == b.score && (opt_gt(a.modified, b.modified) || (a.modified
        == b.modified && seq_lt(a.id, b.id))))
}

/// `Option` order on modification times, `None` first: `a > b`.
pub open spec fn opt_gt(a: Option<i64>, b: Option<i64>) -> bool {
    match (a, b) {
        (Some(x), Some(y)) => x > y,
        (Some(_), None) => true,
        _ => false,
    }
}

/// Position where `x` goes in the ranked list `s`: before the first entry it outranks.
pub open spec fn rank_pos(s: Seq<HitView>, x: HitView, k: int) -> int
    decreases s.len() - k,
{
    if k < 0 || k >= s.len() {
        if k < 0 { 0 } else { k }
    } else if ranks_before(x, s[k]) {
        k
    } else {
        rank_pos(s, x, k + 1)
    }
}

/// The hits in rank order (insertion sort).
pub open spec fn ranked(s: Seq<HitView>) -> Seq<HitView>
    decreases s.len(),
{
    if s.len() == 0 {
        seq![]
    } else {
        let r = ranked(s.drop_last());
        r.insert(rank_pos(r, s.last(), 0), s.last())
    }
}

pub proof fn lemma_rank_pos(s: Seq<HitView>, x: HitView, k: int)
    requires
        0 <= k <= s.len(),
    ensures
        k <= rank_pos(s, x, k) <= s.len(),
    decreases s.len() - k,
{
    if k < s.len() && !ranks_before(x, s[k]) {
        lemma_rank_pos(s, x, k + 1);
    }
}

pub proof fn lemma_ranked_len(s: Seq<HitView>)
    ensures
        ranked(s).len() == s.len(),
    decreases s.len(),
{
    if s.len() > 0 {
        lemma_ranked_len(s.drop_last());
        lemma_rank_pos(ranked(s.drop_last()), s.last(), 0);
    }
}

/// Maximum number of results: `limit`, or 50 when it is 0.
pub open spec fn effective_limit(limit: usize) -> int {
    if limit == 0 {
        50
    } else {
        limit as int
    }
}

fn contains_needle(value: &str, needle: &[char]) -> (b: bool)
    ensures
        b == hit(value@, needle@),
{
    let cs = chars_of(value);
    let lower = to_ascii_lowercase(cs.as_slice());
    find_at_or_after(lower.as_slice(), needle, 0).is_some()
}

fn score_text(value: &str, needle: &[char], weight: i32, label: &str, matched: &mut Vec<String>) -> (r: i32)
    ensures
        r == (if hit(value@, needle@) { weight } else { 0 }),
        string_views(final(matched)@) == if hit(value@, needle@) {
            string_views(old(matched)@).push(label@)
        } else {
            string_views(old(matched)@)
        },
{
    if contains_needle(value, needle) {
        let ghost before = string_views(matched@);
        matched.push(label.to_owned());
        assert(string_views(matched@) =~= before.push(label@));
        weight
    } else {
        weight - weight
    }
}

/// Whether the extras mark the node suppressed.
pub fn is_suppressed_extra(extra: &Vec<(String, YamlValue)>) -> (b: bool)
    ensures
        b == suppressed_spec(extra_view(extra@)),
{
    match extra_get(extra, "suppressed") {
        Some(v) => match v.as_bool() {
            Some(true) => true,
            _ => false,
        },
        None => false,
    }
}

/// Whether the node is marked suppressed.
pub fn is_suppressed(node: &Node) -> (b: bool)
    ensures
        b == suppressed_spec(node.metadata@.extra),
{
    is_suppressed_extra(&node.metadata.extra)
}

/// Summary of a node's body.
pub fn summarize_body(node: &Node) -> (r: String)
    ensures
        r@ == summary_spec(node.body@),
{
    summarize_text(node.body.as_str())
}

/// Whether the extras carry every required tag, ignoring ASCII case.
pub fn tags_match(extra: &Vec<(String, YamlValue)>, required: &[String]) -> (b: bool)
    ensures
        b == tags_match_spec(extra_view(extra@), strings_view(required@)),
{
    if required.len() == 0 {
        return true;
    }
    let tags = match extra_get(extra, "tags") {
        Some(v) => v.tags(),
        None => {
            let v: Vec<String> = Vec::new();
            v
        },
    };
    let ghost tv = tags@.map_values(|s: String| s@);
    let mut lowered: Vec<Vec<char>> = Vec::new();
    let mut k: usize = 0;
    while k < tags.len()
        invariant
            k <= tags.len(),
            tv == tags@.map_values(|s: String| s@),
            lowered@.map_values(|v: Vec<char>| v@) == tv.take(k as int).map_values(|t: Seq<char>| lower_seq(t)),
        decreases tags.len() - k,
    {
        let cs = chars_of(tags[k].as_str());
        let ghost before = lowered@.map_values(|v: Vec<char>| v@);
        lowered.push(to_ascii_lowercase(cs.as_slice()));
        k = k + 1;
        assert(lowered@.map_values(|v: Vec<char>| v@) =~= before.push(lower_seq(tv[k - 1])));
        assert(tv.take(k as int).map_values(|t: Seq<char>| lower_seq(t)) =~= tv.take(k - 1).map_values(
            |t: Seq<char>| lower_seq(t),
        ).push(lower_seq(tv[k - 1])));
    }
    assert(tv.take(tags.len() as int) =~= tv);
    assert(tv == match extra_lookup(extra_view(extra@), "tags"@) {
        Some(v) => tags_spec(v),
        None => seq![],
    }) by {
        if extra_lookup(extra_view(extra@), "tags"@) is None {
            assert(tv =~= Seq::<Seq<char>>::empty());
        }
    }
    let ghost lv = tv.map_values(|t: Seq<char>| lower_seq(t));
    let ghost rq = strings_view(required@);
    let mut i: usize = 0;
    while i < required.len()
        invariant
            i <= required.len(),
            lv == lowered@.map_values(|v: Vec<char>| v@),
            lv == tv.map_values(|t: Seq<char>| lower_seq(t)),
            tv == match extra_lookup(extra_view(extra@), "tags"@) {
                Some(v) => tags_spec(v),
                None => seq![],
            },
            rq == strings_view(required@),
            forall|m: int| 0 <= m < i ==> lv.contains(lower_seq(#[trigger] rq[m])),
        decreases required.len() - i,
    {
        let rc = chars_of(required[i].as_str());
        let want = to_ascii_lowercase(rc.as_slice());
        assert(rq[i as int] == required@[i as int]@);
        let mut found = false;
        let mut j: usize = 0;
        while j < lowered.len() && !found
            invariant
                j <= lowered.len(),
                lv == lowered@.map_values(|v: Vec<char>| v@),
                found ==> lv.contains(want@),
                !found ==> forall|m: int| 0 <= m < j ==> lv[m] != want@,
            decreases lowered.len() - j,
        {
            assert(lv[j as int] == lowered@[j as int]@);
            if crate::text::chars_eq(lowered[j].as_slice(), want.as_slice()) {
                found = true;
            }
            j = j + 1;
        }
        if !found {
            proof {
                assert(!lv.contains(want@)) by {
                    if lv.contains(want@) {
                        let m = choose|m: int| 0 <= m < lv.len() && lv[m] == want@;
                        assert(lv[m] != want@);
                    }
                }
                assert(want@ == lower_seq(rq[i as int]));
                let st = match extra_lookup(extra_view(extra@), "tags"@) {
                    Some(v) => tags_spec(v),
                    None => seq![],
                };
                assert(st == tv);
                assert(!(forall|m: int| 0 <= m < rq.len() ==> st.map_values(|t: Seq<char>| lower_seq(t)).contains(
                    lower_seq(#[trigger] rq[m]),
                )));
            }
            return false;
        }
        i = i + 1;
    }
    true
}

pub proof fn lemma_parts_nonneg(p: Seq<(Seq<char>, int, Seq<char>)>, needle: Seq<char>)
    requires
        forall|i: int| 0 <= i < p.len() ==> (#[trigger] p[i]).1 >= 0,
    ensures
        parts_score(p, needle) >= 0,
    decreases p.len(),
{
    if p.len() > 0 {
        lemma_parts_nonneg(p.drop_last(), needle);
    }
}

/// Add a weight to a score, stopping at `i32::MAX`.
fn add_capped(acc: i32, w: i32) -> (r: i32)
    requires
        acc >= 0,
        w >= 0,
    ensures
        r == (if acc + w > i32::MAX { i32::MAX as int } else { acc + w }),
{
    match acc.checked_add(w) {
        Some(v) => v,
        None => i32::MAX,
    }
}

/// `t` capped at `i32::MAX`.
pub open spec fn capped(t: int) -> int {
    if t > i32::MAX {
        i32::MAX as int
    } else {
        t
    }
}

/// Score and labels of one searchable part, accumulated.
fn score_part(
    value: &str,
    needle: &[char],
    weight: i32,
    label: &str,
    acc: i32,
    matched: &mut Vec<String>,
    Ghost(done): Ghost<Seq<(Seq<char>, int, Seq<char>)>>,
) -> (r: i32)
    requires
        weight >= 0,
        forall|i: int| 0 <= i < done.len() ==> (#[trigger] done[i]).1 >= 0,
        acc == capped(parts_score(done, needle@)),
        string_views(old(matched)@) == parts_labels(done, needle@),
    ensures
        r == capped(parts_score(done.push((value@, weight as int, label@)), needle@)),
        string_views(final(matched)@) == parts_labels(done.push((value@, weight as int, label@)), needle@),
        r >= 0,
{
    proof {
        lemma_parts_nonneg(done, needle@);
        assert(done.push((value@, weight as int, label@)).drop_last() =~= done);
    }
    let w = score_text(value, needle, weight, label, matched);
    add_capped(acc, w)
}

pub(crate) fn entry_score(e: &NodeIndexEntry, needle: &[char], matched: &mut Vec<String>) -> (r: i32)
    requires
        string_views(old(matched)@).len() == 0,
    ensures
        r == capped(parts_score(entry_parts(e@.metadata.id, e@), needle@)),
        string_views(final(matched)@) == parts_labels(entry_parts(e@.metadata.id, e@), needle@),
{
    let ghost ev = e@;
    let ghost fixed = seq![(ev.metadata.id, 30int, "id"@), (ev.metadata.node_type, 12int, "type"@), (ev.body, 6int, "body"@)];
    let ghost lparts = ev.metadata.links.map_values(|l: Seq<char>| (l, 10int, "links"@));
    assert(string_views(matched@) =~= parts_labels(Seq::empty(), needle@));
    let mut acc: i32 = 0;
    acc = score_part(e.metadata.id.as_str(), needle, 30, "id", acc, matched, Ghost(Seq::empty()));
    assert(Seq::<(Seq<char>, int, Seq<char>)>::empty().push((ev.metadata.id, 30int, "id"@)) =~= fixed.take(1));
    acc = score_part(e.metadata.node_type.as_str(), needle, 12, "type", acc, matched, Ghost(fixed.take(1)));
    assert(fixed.take(1).push((ev.metadata.node_type, 12int, "type"@)) =~= fixed.take(2));
    acc = score_part(e.body.as_str(), needle, 6, "body", acc, matched, Ghost(fixed.take(2)));
    assert(fixed.take(2).push((ev.body, 6int, "body"@)) =~= fixed);
    let mut j: usize = 0;
    assert(fixed + lparts.take(0) =~= fixed);
    while j < e.metadata.links.len()
        invariant
            j <= e.metadata.links.len(),
            ev == e@,
            lparts == ev.metadata.links.map_values(|l: Seq<char>| (l, 10int, "links"@)),
            forall|i: int| 0 <= i < (fixed + lparts.take(j as int)).len() ==> (#[trigger] (fixed + lparts.take(j as int))[i]).1 >= 0,
            acc == capped(parts_score(fixed + lparts.take(j as int), needle@)),
            string_views(matched@) == parts_labels(fixed + lparts.take(j as int), needle@),
        decreases e.metadata.links.len() - j,
    {
        assert(ev.metadata.links[j as int] == e.metadata.links@[j as int]@);
        acc = score_part(e.metadata.links[j].as_str(), needle, 10, "links", acc, matched, Ghost(fixed + lparts.take(j as int)));
        assert((fixed + lparts.take(j as int)).push((ev.metadata.links[j as int], 10int, "links"@)) =~= fixed + lparts.take(j + 1));
        j = j + 1;
    }
    assert(lparts.take(e.metadata.links.len() as int) =~= lparts);
    let ghost head = fixed + lparts;
    let ghost xv = ev.metadata.extra;
    let mut k: usize = 0;
    assert(head + extra_parts(xv.take(0)) =~= head);
    while k < e.metadata.extra.len()
        invariant
            k <= e.metadata.extra.len(),
            ev == e@,
            xv == ev.metadata.extra,
            forall|i: int| 0 <= i < (head + extra_parts(xv.take(k as int))).len() ==> (#[trigger] (head + extra_parts(xv.take(k as int)))[i]).1 >= 0,
            acc == capped(parts_score(head + extra_parts(xv.take(k as int)), needle@)),
            string_views(matched@) == parts_labels(head + extra_parts(xv.take(k as int)), needle@),
        decreases e.metadata.extra.len() - k,
    {
        let ghost before = head + extra_parts(xv.take(k as int));
        assert(xv[k as int] == (e.metadata.extra@[k as int].0@, e.metadata.extra@[k as int].1@));
        acc = score_part(e.metadata.extra[k].0.as_str(), needle, 4, "frontmatter", acc, matched, Ghost(before));
        let text = e.metadata.extra[k].1.search_text();
        let ghost mid = before.push((xv[k as int].0, 4int, "frontmatter"@));
        acc = score_part(text.as_str(), needle, 4, "frontmatter", acc, matched, Ghost(mid));
        assert(xv.take(k + 1).drop_last() =~= xv.take(k as int));
        assert(mid.push((search_text(xv[k as int].1), 4int, "frontmatter"@)) =~= head + extra_parts(xv.take(k + 1)));
        k = k + 1;
    }
    assert(xv.take(e.metadata.extra.len() as int) =~= xv);
    acc
}

/// The search hit for an entry, if it passes the filters.
fn entry_hit(e: &NodeIndexEntry, modified: Option<i64>, options: &QueryOptions, needle: &[char]) -> (r: Option<SearchResult>)
    ensures
        match hit_for(e@, modified, *options, needle@) {
            Some(h) => r matches Some(x) && hit_view(x) == h && strictly_sorted(string_views(x.matched@)),
            None => r is None,
        },
{
    if let Some(t) = &options.node_type {
        if e.metadata.node_type != *t {
            return None;
        }
    }
    if !options.include_suppressed && is_suppressed_extra(&e.metadata.extra) {
        return None;
    }
    if !tags_match(&e.metadata.extra, options.tags.as_slice()) {
        return None;
    }
    if let Some(since) = options.modified_since_unix {
        match modified {
            None => {
                return None;
            },
            Some(m) => if m <= since {
                return None;
            },
        }
    }
    let mut matched: Vec<String> = Vec::new();
    let score = if needle.len() == 0 {
        matched.push("all".to_owned());
        assert(string_views(matched@) =~= seq!["all"@]);
        1
    } else {
        assert(string_views(matched@) =~= Seq::<Seq<char>>::empty());
        entry_score(e, needle, &mut matched)
    };
    if score <= 0 {
        return None;
    }
    let ghost labels = string_views(matched@);
    let sorted = sort_dedup(matched);
    Some(
        SearchResult {
            id: e.metadata.id.clone(),
            node_type: e.metadata.node_type.clone(),
            relative_path: e.relative_path.clone(),
            score,
            matched: sorted,
            summary: e.summary.clone(),
            modified_unix: modified,
        },
    )
}

fn opt_gt_exec(a: Option<i64>, b: Option<i64>) -> (r: bool)
    ensures
        r == opt_gt(a, b),
{
    match (a, b) {
        (Some(x), Some(y)) => x > y,
        (Some(_), None) => true,
        _ => false,
    }
}

fn ranks_before_exec(a: &SearchResult, b: &SearchResult) -> (r: bool)
    ensures
        r == ranks_before(hit_view(*a), hit_view(*b)),
{
    a.score > b.score || (a.score == b.score && (opt_gt_exec(a.modified_unix, b.modified_unix) || (
    a.modified_unix == b.modified_unix && str_lt(a.id.as_str(), b.id.as_str()))))
}

pub open spec fn hit_views(v: Seq<SearchResult>) -> Seq<HitView> {
    v.map_values(|r: SearchResult| hit_view(r))
}

/// `v` is the result of searching the entries `es` (with modification times `modified`):
/// the ranked hits for the lowercased query text, cut to the limit, each listing its
/// matched fields sorted and once.
pub open spec fn search_results(
    v: Seq<SearchResult>,
    es: Seq<EntryView>,
    modified: Seq<Option<i64>>,
    options: QueryOptions,
) -> bool {
    let needle = match options.text {
        Some(t) => lower_seq(t@),
        None => seq![],
    };
    let all = ranked(hits(es, modified, options, needle));
    &&& hit_views(v) == all.take(if all.len() < effective_limit(options.limit) {
        all.len() as int
    } else {
        effective_limit(options.limit)
    })
    &&& forall|i: int| 0 <= i < v.len() ==> strictly_sorted(string_views((#[trigger] v[i]).matched@))
}

/// Every hit names an entry of `es`, with that entry's type, and of the requested type
/// when one is given.
pub proof fn lemma_hits_sound(es: Seq<EntryView>, modified: Seq<Option<i64>>, o: QueryOptions, needle: Seq<char>)
    ensures
        forall|k: int| 0 <= k < hits(es, modified, o, needle).len() ==> exists|j: int|
            0 <= j < es.len() && es[j].metadata.id == (#[trigger] hits(es, modified, o, needle)[k]).id
                && es[j].metadata.node_type == hits(es, modified, o, needle)[k].node_type,
        forall|k: int| 0 <= k < hits(es, modified, o, needle).len() ==> (o.node_type is Some ==> (
        #[trigger] hits(es, modified, o, needle)[k]).node_type == o.node_type->0@),
    decreases es.len(),
{
    if es.len() > 0 {
        let d = es.drop_last();
        let md = modified.take(es.len() - 1);
        lemma_hits_sound(d, md, o, needle);
        let prev = hits(d, md, o, needle);
        let h = hits(es, modified, o, needle);
        assert forall|k: int| 0 <= k < h.len() implies (exists|j: int|
            0 <= j < es.len() && es[j].metadata.id == (#[trigger] h[k]).id && es[j].metadata.node_type
                == h[k].node_type) && (o.node_type is Some ==> h[k].node_type == o.node_type->0@) by {
            if k < prev.len() {
                assert(h[k] == prev[k]);
                let j = choose|j: int| 0 <= j < d.len() && d[j].metadata.id == prev[k].id
                    && d[j].metadata.node_type == prev[k].node_type;
                assert(es[j] == d[j]);
            } else {
                assert(es[es.len() - 1] == es.last());
            }
        }
    }
}

/// Without query text, every entry passing the type, suppression, tag and recency
/// filters is a hit.
pub proof fn lemma_hits_complete(es: Seq<EntryView>, modified: Seq<Option<i64>>, o: QueryOptions, j: int)
    requires
        modified.len() == es.len(),
        0 <= j < es.len(),
        o.node_type is Some ==> es[j].metadata.node_type == o.node_type->0@,
        o.include_suppressed || !suppressed_spec(es[j].metadata.extra),
        tags_match_spec(es[j].metadata.extra, strings_view(o.tags@)),
        o.modified_since_unix is Some ==> (modified[j] is Some && modified[j]->0 > o.modified_since_unix->0),
    ensures
        exists|k: int| 0 <= k < hits(es, modified, o, seq![]).len() && #[trigger] hits(es, modified, o, seq![])[k].id
            == es[j].metadata.id,
    decreases es.len(),
{
    let d = es.drop_last();
    let md = modified.take(es.len() - 1);
    let prev = hits(d, md, o, seq![]);
    let h = hits(es, modified, o, seq![]);
    if j < es.len() - 1 {
        assert(d[j] == es[j]);
        assert(md[j] == modified[j]);
        lemma_hits_complete(d, md, o, j);
        let k = choose|k: int| 0 <= k < prev.len() && #[trigger] prev[k].id == d[j].metadata.id;
        assert(h[k] == prev[k]);
    } else {
        assert(es.last() == es[j]);
        assert(h[prev.len() as int].id == es[j].metadata.id);
    }
}

/// The ranked hits are the hits, reordered.
pub proof fn lemma_ranked_same(s: Seq<HitView>)
    ensures
        ranked(s).len() == s.len(),
        forall|k: int| 0 <= k < ranked(s).len() ==> exists|m: int| 0 <= m < s.len() && #[trigger] ranked(s)[k] == s[m],
        forall|m: int| 0 <= m < s.len() ==> exists|k: int| 0 <= k < ranked(s).len() && ranked(s)[k] == #[trigger] s[m],
    decreases s.len(),
{
    lemma_ranked_len(s);
    if s.len() > 0 {
        let d = s.drop_last();
        lemma_ranked_same(d);
        let r = ranked(d);
        let p = rank_pos(r, s.last(), 0);
        lemma_rank_pos(r, s.last(), 0);
        let rs = r.insert(p, s.last());
        assert(ranked(s) == rs);
        assert forall|k: int| 0 <= k < rs.len() implies exists|m: int| 0 <= m < s.len() && #[trigger] rs[k] == s[m] by {
            if k < p {
                assert(rs[k] == r[k]);
                let m = choose|m: int| 0 <= m < d.len() && r[k] == d[m];
                assert(s[m] == d[m]);
            } else if k == p {
                assert(rs[k] == s[s.len() - 1]);
            } else {
                assert(rs[k] == r[k - 1]);
                let m = choose|m: int| 0 <= m < d.len() && r[k - 1] == d[m];
                assert(s[m] == d[m]);
            }
        }
        assert forall|m: int| 0 <= m < s.len() implies exists|k: int| 0 <= k < rs.len() && rs[k] == #[trigger] s[m] by {
            if m < s.len() - 1 {
                assert(s[m] == d[m]);
                let k = choose|k: int| 0 <= k < r.len() && r[k] == d[m];
                if k < p {
                    assert(rs[k] == r[k]);
                } else {
                    assert(rs[k + 1] == r[k]);
                }
            } else {
                assert(rs[p] == s.last());
            }
        }
    }
}

/// Search results name indexed nodes (with their types), all of the requested type when
/// one is given; and without query text every indexed node passing the type,
/// suppression, tag and recency filters is among the results, unless the limit cut the
/// list.
pub proof fn law_search_type_filter(
    v: Seq<SearchResult>,
    es: Seq<EntryView>,
    modified: Seq<Option<i64>>,
    o: QueryOptions,
)
    requires
        modified.len() == es.len(),
        search_results(v, es, modified, o),
    ensures
        forall|i: int| 0 <= i < v.len() ==> (o.node_type is Some ==> (#[trigger] v[i]).node_type@
            == o.node_type->0@),
        forall|i: int| 0 <= i < v.len() ==> exists|j: int|
            0 <= j < es.len() && es[j].metadata.id == (#[trigger] v[i]).id@ && es[j].metadata.node_type
                == v[i].node_type@,
        o.text is None && v.len() < effective_limit(o.limit) ==> forall|j: int|
            #![trigger es[j]]
            0 <= j < es.len() && (o.node_type is Some ==> es[j].metadata.node_type == o.node_type->0@)
                && (o.include_suppressed || !suppressed_spec(es[j].metadata.extra)) && tags_match_spec(
                es[j].metadata.extra,
                strings_view(o.tags@),
            ) && (o.modified_since_unix is Some ==> (modified[j] is Some && modified[j]->0
                > o.modified_since_unix->0)) ==> exists|i: int| 0 <= i < v.len() && (#[trigger] v[i]).id@
                == es[j].metadata.id,
{
    let needle = match o.text {
        Some(t) => lower_seq(t@),
        None => seq![],
    };
    let h = hits(es, modified, o, needle);
    let all = ranked(h);
    lemma_hits_sound(es, modified, o, needle);
    lemma_ranked_same(h);
    let n = if all.len() < effective_limit(o.limit) { all.len() as int } else { effective_limit(o.limit) };
    assert(hit_views(v) == all.take(n));
    assert forall|i: int| 0 <= i < v.len() implies (o.node_type is Some ==> (#[trigger] v[i]).node_type@
        == o.node_type->0@) && exists|j: int|
            0 <= j < es.len() && es[j].metadata.id == v[i].id@ && es[j].metadata.node_type == v[i].node_type@ by {
        assert(hit_views(v)[i] == hit_view(v[i]));
        assert(all[i] == hit_view(v[i]));
        let m = choose|m: int| 0 <= m < h.len() && #[trigger] all[i] == h[m];
        assert(h[m] == all[i]);
    }
    if o.text is None && v.len() < effective_limit(o.limit) {
        assert(n == all.len());
        assert forall|j: int|
            #![trigger es[j]]
            0 <= j < es.len() && (o.node_type is Some ==> es[j].metadata.node_type == o.node_type->0@)
                && (o.include_suppressed || !suppressed_spec(es[j].metadata.extra)) && tags_match_spec(
                es[j].metadata.extra,
                strings_view(o.tags@),
            ) && (o.modified_since_unix is Some ==> (modified[j] is Some && modified[j]->0
                > o.modified_since_unix->0)) implies exists|i: int| 0 <= i < v.len() && (#[trigger] v[i]).id@
                == es[j].metadata.id by {
            assert(needle == Seq::<char>::empty());
            lemma_hits_complete(es, modified, o, j);
            let k = choose|k: int| 0 <= k < h.len() && #[trigger] h[k].id == es[j].metadata.id;
            let i = choose|i: int| 0 <= i < all.len() && all[i] == #[trigger] h[k];
            assert(hit_views(v)[i] == hit_view(v[i]));
            assert(v[i].id@ == all[i].id);
        }
    }
}

/// Keyword search over the index. `modified` gives each entry's modification time (in
/// index order), when known. Results pass the type, suppression, tag and recency filters,
/// are scored by where the lowercased query text occurs (or all score 1 without text),
/// are ranked by score, recency and id, and are cut to the limit (50 when it is 0).
pub fn search_index(index: &GraphIndex, options: &QueryOptions, modified: &[Option<i64>]) -> (r: crate::error::Result<Vec<SearchResult>>)
    requires
        modified@.len() == index@.entries.len(),
    ensures
        r matches Ok(v) && search_results(v@, index@.entries, modified@, *options),
        r matches Ok(v) && forall|i: int| 0 <= i < v@.len() ==> (options.node_type is Some ==> (
        #[trigger] v@[i]).node_type@ == options.node_type->0@),
{
    let needle: Vec<char> = match &options.text {
        Some(t) => {
            let cs = chars_of(t.as_str());
            to_ascii_lowercase(cs.as_slice())
        },
        None => {
            let v: Vec<char> = Vec::new();
            assert(v@ =~= Seq::<char>::empty());
            v
        },
    };
    let limit: usize = if options.limit == 0 {
        50
    } else {
        options.limit
    };
    let entries = index.iter();
    let ghost es = entries@.map_values(|e: NodeIndexEntry| e@);
    let ghost nd = needle@;
    let mut results: Vec<SearchResult> = Vec::new();
    let mut i: usize = 0;
    assert(es.take(0) =~= Seq::<EntryView>::empty());
    assert(hit_views(results@) =~= ranked(hits(es.take(0), modified@.take(0), *options, nd)));
    while i < entries.len()
        invariant
            i <= entries.len(),
            modified@.len() == entries@.len(),
            es == entries@.map_values(|e: NodeIndexEntry| e@),
            nd == needle@,
            hit_views(results@) == ranked(hits(es.take(i as int), modified@.take(i as int), *options, nd)),
            forall|m: int| 0 <= m < results@.len() ==> strictly_sorted(string_views((#[trigger] results@[m]).matched@)),
        decreases entries.len() - i,
    {
        assert(es.take(i + 1).drop_last() =~= es.take(i as int));
        assert(es.take(i + 1).last() == entries@[i as int]@);
        assert(modified@.take(i + 1).take(i as int) =~= modified@.take(i as int));
        assert(modified@.take(i + 1)[i as int] == modified@[i as int]);
        let ghost prev_hits = hits(es.take(i as int), modified@.take(i as int), *options, nd);
        match entry_hit(&entries[i], modified[i], options, needle.as_slice()) {
            None => {
                assert(hits(es.take(i + 1), modified@.take(i + 1), *options, nd) == prev_hits);
            },
            Some(h) => {
                assert(hits(es.take(i + 1), modified@.take(i + 1), *options, nd) == prev_hits.push(hit_view(h)));
                assert(prev_hits.push(hit_view(h)).drop_last() =~= prev_hits);
                let ghost hv = hit_view(h);
                let ghost cur = hit_views(results@);
                let mut p: usize = 0;
                while p < results.len() && !ranks_before_exec(&h, &results[p])
                    invariant
                        p <= results.len(),
                        cur == hit_views(results@),
                        hv == hit_view(h),
                        rank_pos(cur, hv, 0) == rank_pos(cur, hv, p as int),
                    decreases results.len() - p,
                {
                    assert(cur[p as int] == hit_view(results@[p as int]));
                    p = p + 1;
                }
                proof {
                    if p < results.len() {
                        assert(cur[p as int] == hit_view(results@[p as int]));
                    }
                }
                let ghost before = results@;
                results.insert(p, h);
                assert(hit_views(results@) =~= cur.insert(p as int, hv));
                assert forall|m: int| 0 <= m < results@.len() implies strictly_sorted(string_views((#[trigger] results@[m]).matched@)) by {
                    if m < p {
                        assert(results@[m] == before[m]);
                    } else if m > p {
                        assert(results@[m] == before[m - 1]);
                    }
                }
            },
        }
        i = i + 1;
    }
    assert(es.take(entries.len() as int) =~= es);
    assert(modified@.take(entries.len() as int) =~= modified@);
    proof {
        lemma_ranked_len(hits(es, modified@, *options, nd));
    }
    let n = if results.len() < limit {
        results.len()
    } else {
        limit
    };
    let ghost full = results@;
    results.truncate(n);
    assert(hit_views(results@) =~= hit_views(full).take(n as int));
    proof {
        law_search_type_filter(results@, index@.entries, modified@, *options);
    }
    Ok(results)
}


/// Abstract form of a change: id, path and modification time.
pub open spec fn change_view(c: GraphChange) -> (Seq<char>, Seq<char>, i64) {
    (c.id@, c.relative_path@, c.modified_unix)
}

/// Entries modified after `since`, in index order.
pub open spec fn changes(es: Seq<EntryView>, modified: Seq<Option<i64>>, since: i64) -> Seq<(Seq<char>, Seq<char>, i64)>
    decreases es.len(),
{
    if es.len() == 0 {
        seq![]
    } else {
        let prev = changes(es.drop_last(), modified.take(es.len() - 1), since);
        match modified[es.len() - 1] {
            Some(m) => if m > since {
                prev.push((es.last().metadata.id, es.last().relative_path, m))
            } else {
                prev
            },
            None => prev,
        }
    }
}

/// `a` is listed before `b`: more recent first, then by id.
pub open spec fn change_before(a: (Seq<char>, Seq<char>, i64), b: (Seq<char>, Seq<char>, i64)) -> bool {
    a.2 > b.2 || (a.2 == b.2 && seq_lt(a.0, b.0))
}

pub open spec fn change_pos(s: Seq<(Seq<char>, Seq<char>, i64)>, x: (Seq<char>, Seq<char>, i64), k: int) -> int
    decreases s.len() - k,
{
    if k < 0 || k >= s.len() {
        if k < 0 { 0 } else { k }
    } else if change_before(x, s[k]) {
        k
    } else {
        change_pos(s, x, k + 1)
    }
}

/// Changes in listing order (insertion sort).
pub open spec fn sorted_changes(s: Seq<(Seq<char>, Seq<char>, i64)>) -> Seq<(Seq<char>, Seq<char>, i64)>
    decreases s.len(),
{
    if s.len() == 0 {
        seq![]
    } else {
        let r = sorted_changes(s.drop_last());
        r.insert(change_pos(r, s.last(), 0), s.last())
    }
}

pub open spec fn change_views(v: Seq<GraphChange>) -> Seq<(Seq<char>, Seq<char>, i64)> {
    v.map_values(|c: GraphChange| change_view(c))
}

/// Nodes modified after `since_unix` (`modified` gives each entry's modification time,
/// in index order), most recent first, ties by id.
pub fn changed_since(index: &GraphIndex, since_unix: i64, modified: &[Option<i64>]) -> (r: Vec<GraphChange>)
    requires
        modified@.len() == index@.entries.len(),
    ensures
        change_views(r@) == sorted_changes(changes(index@.entries, modified@, since_unix)),
{
    let entries = index.iter();
    let ghost es = entries@.map_values(|e: NodeIndexEntry| e@);
    let mut out: Vec<GraphChange> = Vec::new();
    let mut i: usize = 0;
    assert(es.take(0) =~= Seq::<EntryView>::empty());
    assert(change_views(out@) =~= sorted_changes(changes(es.take(0), modified@.take(0), since_unix)));
    while i < entries.len()
        invariant
            i <= entries.len(),
            modified@.len() == entries@.len(),
            es == entries@.map_values(|e: NodeIndexEntry| e@),
            change_views(out@) == sorted_changes(changes(es.take(i as int), modified@.take(i as int), since_unix)),
        decreases entries.len() - i,
    {
        assert(es.take(i + 1).drop_last() =~= es.take(i as int));
        assert(es.take(i + 1).last() == entries@[i as int]@);
        assert(modified@.take(i + 1).take(i as int) =~= modified@.take(i as int));
        assert(modified@.take(i + 1)[i as int] == modified@[i as int]);
        let ghost prev = changes(es.take(i as int), modified@.take(i as int), since_unix);
        match modified[i] {
            Some(m) => {
                if m > since_unix {
                    let c = GraphChange {
                        id: entries[i].metadata.id.clone(),
                        relative_path: entries[i].relative_path.clone(),
                        modified_unix: m,
                    };
                    let ghost cv = change_view(c);
                    assert(changes(es.take(i + 1), modified@.take(i + 1), since_unix) == prev.push(cv));
                    assert(prev.push(cv).drop_last() =~= prev);
                    let ghost cur = change_views(out@);
                    let mut p: usize = 0;
                    while p < out.len() && !(c.modified_unix > out[p].modified_unix || (c.modified_unix
                        == out[p].modified_unix && str_lt(c.id.as_str(), out[p].id.as_str())))
                        invariant
                            p <= out.len(),
                            cur == change_views(out@),
                            cv == change_view(c),
                            change_pos(cur, cv, 0) == change_pos(cur, cv, p as int),
                        decreases out.len() - p,
                    {
                        assert(cur[p as int] == change_view(out@[p as int]));
                        p = p + 1;
                    }
                    proof {
                        if p < out.len() {
                            assert(cur[p as int] == change_view(out@[p as int]));
                        }
                    }
                    out.insert(p, c);
                    assert(change_views(out@) =~= cur.insert(p as int, cv));
                } else {
                    assert(changes(es.take(i + 1), modified@.take(i + 1), since_unix) == prev);
                }
            },
            None => {
                assert(changes(es.take(i + 1), modified@.take(i + 1), since_unix) == prev);
            },
        }
        i = i + 1;
    }
    assert(es.take(entries.len() as int) =~= es);
    assert(modified@.take(entries.len() as int) =~= modified@);
    out
}

} // verus!
