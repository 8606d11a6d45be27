//! Textual IP address literals (dotted IPv4, colon-hex IPv6 with `::` and an optional
//! trailing dotted IPv4 part) and the address classes that HTTP hosts may not name.
use vstd::prelude::*;

use crate::text::{find_at_or_after, find_from, lemma_find_from_props, occurs_at, slice_vec};

verus! {

/// `s` cut at every `c`: `k` separators give `k + 1` parts, empty ones included.
pub open spec fn split_on(s: Seq<char>, c: char) -> Seq<Seq<char>>
    decreases s.len(),
{
    if s.len() == 0 {
        seq![Seq::<char>::empty()]
    } else {
        let r = split_on(s.drop_last(), c);
        if s.last() == c {
            r.push(Seq::<char>::empty())
        } else {
            r.update(r.len() - 1, r.last().push(s.last()))
        }
    }
}

/// Value of a hexadecimal digit.
pub open spec fn hex_digit(c: char) -> Option<int> {
    if '0' <= c && c <= '9' {
        Some(c as int - '0' as int)
    } else if 'a' <= c && c <= 'f' {
        Some(c as int - 'a' as int + 10)
    } else if 'A' <= c && c <= 'F' {
        Some(c as int - 'A' as int + 10)
    } else {
        None
    }
}

/// Value of a decimal digit.
pub open spec fn dec_digit(c: char) -> Option<int> {
    if '0' <= c && c <= '9' {
        Some(c as int - '0' as int)
    } else {
        None
    }
}

/// Value of the digits `s` in base `16` (`hex`) or `10`, `None` on another character.
pub open spec fn digits_value(s: Seq<char>, hex: bool) -> Option<int>
    decreases s.len(),
{
    if s.len() == 0 {
        Some(0)
    } else {
        let d = if hex { hex_digit(s.last()) } else { dec_digit(s.last()) };
        match (digits_value(s.drop_last(), hex), d) {
            (Some(v), Some(x)) => Some(v * (if hex { 16int } else { 10int }) + x),
            _ => None,
        }
    }
}

/// A colon-separated IPv6 group: one to four hexadecimal digits.
pub open spec fn hex_group(s: Seq<char>) -> Option<int> {
    if 1 <= s.len() <= 4 {
        digits_value(s, true)
    } else {
        None
    }
}

/// A dotted IPv4 octet: one to three decimal digits, no leading zero, at most 255.
pub open spec fn dec_octet(s: Seq<char>) -> Option<int> {
    if 1 <= s.len() <= 3 && !(s.len() > 1 && s[0] == '0') {
        match digits_value(s, false) {
            Some(v) => if v <= 255 { Some(v) } else { None },
            None => None,
        }
    } else {
        None
    }
}

/// Values of `parts` read as octets (`hex == false`) or groups (`hex == true`).
pub open spec fn parts_values(parts: Seq<Seq<char>>, hex: bool) -> Option<Seq<int>>
    decreases parts.len(),
{
    if parts.len() == 0 {
        Some(seq![])
    } else {
        let x = if hex { hex_group(parts.last()) } else { dec_octet(parts.last()) };
        match (parts_values(parts.drop_last(), hex), x) {
            (Some(v), Some(y)) => Some(v.push(y)),
            _ => None,
        }
    }
}

/// Octets of a dotted IPv4 literal: exactly four octets.
pub open spec fn ipv4_octets(s: Seq<char>) -> Option<Seq<int>> {
    let p = split_on(s, '.');
    if p.len() == 4 {
        parts_values(p, false)
    } else {
        None
    }
}

/// Groups of colon-separated IPv6 parts: hexadecimal groups, of which the last may be a
/// dotted IPv4 literal standing for two groups.
pub open spec fn v6_parts_groups(parts: Seq<Seq<char>>) -> Option<Seq<int>> {
    if parts.len() == 0 {
        Some(seq![])
    } else {
        match parts_values(parts.drop_last(), true) {
            None => None,
            Some(g) => match hex_group(parts.last()) {
                Some(v) => Some(g.push(v)),
                None => match ipv4_octets(parts.last()) {
                    Some(o) => Some(g + seq![o[0] * 256 + o[1], o[2] * 256 + o[3]]),
                    None => None,
                },
            },
        }
    }
}

/// The eight groups of an IPv6 literal. Without `::` there are eight groups; with one
/// `::` (standing for at least one zero group) the groups before and after it number at
/// most seven, and only the groups after it may end in a dotted IPv4 part.
pub open spec fn ipv6_groups(s: Seq<char>) -> Option<Seq<int>> {
    match find_from(s, seq![':', ':'], 0) {
        None => match v6_parts_groups(split_on(s, ':')) {
            Some(g) => if g.len() == 8 { Some(g) } else { None },
            None => None,
        },
        Some(p) => {
            let left = s.take(p);
            let right = s.skip(p + 2);
            let l = if left.len() == 0 { Some(seq![]) } else { parts_values(split_on(left, ':'), true) };
            let r = if right.len() == 0 { Some(seq![]) } else { v6_parts_groups(split_on(right, ':')) };
            match (l, r) {
                (Some(a), Some(b)) => if a.len() + b.len() <= 7 {
                    Some(a + Seq::new((8 - a.len() - b.len()) as nat, |i: int| 0int) + b)
                } else {
                    None
                },
                _ => None,
            }
        },
    }
}

/// An IPv4 address that may not be fetched: loopback, private (RFC 1918), link-local,
/// unspecified, broadcast, or in `0.0.0.0/8`.
pub open spec fn v4_blocked(o: Seq<int>) -> bool {
    ||| o[0] == 127
    ||| o[0] == 10
    ||| (o[0] == 172 && 16 <= o[1] <= 31)
    ||| (o[0] == 192 && o[1] == 168)
    ||| (o[0] == 169 && o[1] == 254)
    ||| (o[0] == 255 && o[1] == 255 && o[2] == 255 && o[3] == 255)
    ||| o[0] == 0
}

/// An IPv6 address that may not be fetched: `::1`, `::`, unique local (`fc00::/7`) or
/// link-local (`fe80::/10`).
pub open spec fn v6_blocked(g: Seq<int>) -> bool {
    ||| ((forall|i: int| 0 <= i < 7 ==> #[trigger] g[i] == 0) && (g[7] == 0 || g[7] == 1))
    ||| (0xfc00 <= g[0] <= 0xfdff)
    ||| (0xfe80 <= g[0] <= 0xfebf)
}

/// For a host that is an IPv4 or IPv6 literal, whether it names a blocked address;
/// `None` when it is no IP literal.
pub open spec fn ip_literal_blocked(host: Seq<char>) -> Option<bool> {
    match ipv4_octets(host) {
        Some(o) => Some(v4_blocked(o)),
        None => match ipv6_groups(host) {
            Some(g) => Some(v6_blocked(g)),
            None => None,
        },
    }
}

fn split_exec(s: &[char], c: char) -> (r: Vec<Vec<char>>)
    ensures
        r@.map_values(|p: Vec<char>| p@) == split_on(s@, c),
{
    let mut r: Vec<Vec<char>> = Vec::new();
    r.push(Vec::new());
    let mut i: usize = 0;
    assert(s@.take(0) =~= Seq::<char>::empty());
    assert(r@.map_values(|p: Vec<char>| p@) =~= split_on(s@.take(0), c));
    while i < s.len()
        invariant
            i <= s.len(),
            r@.len() >= 1,
            r@.map_values(|p: Vec<char>| p@) == split_on(s@.take(i as int), c),
        decreases s.len() - i,
    {
        let ghost before = r@.map_values(|p: Vec<char>| p@);
        assert(s@.take(i + 1).drop_last() =~= s@.take(i as int));
        if s[i] == c {
            r.push(Vec::new());
            assert(r@.map_values(|p: Vec<char>| p@) =~= before.push(Seq::<char>::empty()));
        } else {
            let n = r.len() - 1;
            let mut last = r[n].clone();
            last.push(s[i]);
            r.set(n, last);
            assert(r@.map_values(|p: Vec<char>| p@) =~= before.update(
                before.len() - 1,
                before.last().push(s@[i as int]),
            ));
        }
        i = i + 1;
    }
    assert(s@.take(s.len() as int) =~= s@);
    r
}

fn digit_exec(c: char, hex: bool) -> (r: Option<u32>)
    ensures
        match (if hex { hex_digit(c) } else { dec_digit(c) }) {
            Some(v) => r matches Some(x) && x == v && v < 16,
            None => r is None,
        },
{
    if '0' <= c && c <= '9' {
        Some((c as u32) - ('0' as u32))
    } else if hex && 'a' <= c && c <= 'f' {
        Some((c as u32) - ('a' as u32) + 10)
    } else if hex && 'A' <= c && c <= 'F' {
        Some((c as u32) - ('A' as u32) + 10)
    } else {
        None
    }
}

/// Value of at most four digits (see [`digits_value`]).
fn digits_exec(s: &[char], hex: bool) -> (r: Option<u32>)
    requires
        s.len() <= 4,
    ensures
        match digits_value(s@, hex) {
            Some(v) => r matches Some(x) && x == v && v < 65536,
            None => r is None,
        },
{
    let mut v: u32 = 0;
    let mut i: usize = 0;
    assert(s@.take(0) =~= Seq::<char>::empty());
    while i < s.len()
        invariant
            i <= s.len() <= 4,
            digits_value(s@.take(i as int), hex) == Some(v as int),
            i == 0 ==> v == 0,
            i <= 1 ==> v < 16,
            i <= 2 ==> v < 256,
            i <= 3 ==> v < 4096,
            v < 65536,
        decreases s.len() - i,
    {
        assert(s@.take(i + 1).drop_last() =~= s@.take(i as int));
        assert(s@.take(i + 1).last() == s@[i as int]);
        match digit_exec(s[i], hex) {
            None => {
                proof {
                    lemma_digits_none(s@, hex, i as int + 1);
                }
                return None;
            },
            Some(d) => {
                let base: u32 = if hex { 16 } else { 10 };
                v = v * base + d;
            },
        }
        i = i + 1;
    }
    assert(s@.take(s.len() as int) =~= s@);
    Some(v)
}

pub proof fn lemma_digits_none(s: Seq<char>, hex: bool, k: int)
    requires
        0 <= k <= s.len(),
        digits_value(s.take(k), hex) is None,
    ensures
        digits_value(s, hex) is None,
    decreases s.len() - k,
{
    if k < s.len() {
        assert(s.take(k + 1).drop_last() =~= s.take(k));
        lemma_digits_none(s, hex, k + 1);
    } else {
        assert(s.take(k) =~= s);
    }
}

fn hex_group_exec(s: &[char]) -> (r: Option<u32>)
    ensures
        match hex_group(s@) {
            Some(v) => r matches Some(x) && x == v && v < 65536,
            None => r is None,
        },
{
    if s.len() < 1 || s.len() > 4 {
        return None;
    }
    digits_exec(s, true)
}

fn dec_octet_exec(s: &[char]) -> (r: Option<u32>)
    ensures
        match dec_octet(s@) {
            Some(v) => r matches Some(x) && x == v && v <= 255,
            None => r is None,
        },
{
    if s.len() < 1 || s.len() > 3 || (s.len() > 1 && s[0] == '0') {
        return None;
    }
    let r = digits_exec(s, false);
    match r {
        Some(v) => {
            assert(digits_value(s@, false) == Some(v as int));
            if v <= 255 { Some(v) } else { None }
        },
        None => None,
    }
}

pub open spec fn u32_views(v: Seq<u32>) -> Seq<int> {
    v.map_values(|x: u32| x as int)
}

fn parts_values_exec(parts: &[Vec<char>], n: usize, hex: bool) -> (r: Option<Vec<u32>>)
    requires
        n <= parts.len(),
    ensures
        match parts_values(parts@.map_values(|p: Vec<char>| p@).take(n as int), hex) {
            Some(v) => r matches Some(w) && u32_views(w@) == v && forall|i: int|
                0 <= i < v.len() ==> 0 <= #[trigger] v[i] < 65536,
            None => r is None,
        },
{
    let ghost pv = parts@.map_values(|p: Vec<char>| p@);
    let mut out: Vec<u32> = Vec::new();
    let mut i: usize = 0;
    assert(pv.take(0) =~= Seq::<Seq<char>>::empty());
    while i < n
        invariant
            i <= n <= parts.len(),
            pv == parts@.map_values(|p: Vec<char>| p@),
            parts_values(pv.take(i as int), hex) == Some(u32_views(out@)),
            forall|m: int| 0 <= m < out@.len() ==> #[trigger] out@[m] < 65536,
        decreases n - i,
    {
        assert(pv.take(i + 1).drop_last() =~= pv.take(i as int));
        assert(pv.take(i + 1).last() == parts@[i as int]@);
        let x = if hex { hex_group_exec(parts[i].as_slice()) } else { dec_octet_exec(parts[i].as_slice()) };
        match x {
            None => {
                proof {
                    assert(pv.take(n as int).take(i + 1) =~= pv.take(i + 1));
                    lemma_parts_none(pv.take(n as int), hex, i as int + 1);
                }
                return None;
            },
            Some(y) => {
                let ghost before = out@;
                out.push(y);
                assert(u32_views(out@) =~= u32_views(before).push(y as int));
            },
        }
        i = i + 1;
    }
    proof {
        assert forall|m: int| 0 <= m < u32_views(out@).len() implies 0 <= #[trigger] u32_views(
            out@,
        )[m] < 65536 by {
            assert(out@[m] < 65536);
        }
    }
    Some(out)
}

pub proof fn lemma_parts_none(p: Seq<Seq<char>>, hex: bool, k: int)
    requires
        0 <= k <= p.len(),
        parts_values(p.take(k), hex) is None,
    ensures
        parts_values(p, hex) is None,
    decreases p.len() - k,
{
    if k < p.len() {
        assert(p.take(k + 1).drop_last() =~= p.take(k));
        lemma_parts_none(p, hex, k + 1);
    } else {
        assert(p.take(k) =~= p);
    }
}

fn ipv4_octets_exec(s: &[char]) -> (r: Option<Vec<u32>>)
    ensures
        match ipv4_octets(s@) {
            Some(v) => r matches Some(w) && u32_views(w@) == v && v.len() == 4 && forall|i: int|
                0 <= i < 4 ==> 0 <= #[trigger] v[i] <= 255,
            None => r is None,
        },
{
    let parts = split_exec(s, '.');
    if parts.len() != 4 {
        return None;
    }
    let r = parts_values_exec(parts.as_slice(), 4, false);
    proof {
        let pv = parts@.map_values(|p: Vec<char>| p@);
        assert(pv.take(4) =~= pv);
        lemma_parts_props(pv, false);
        if r is Some {
            let w = r->0;
            let v = u32_views(w@);
            assert forall|i: int| 0 <= i < 4 implies 0 <= #[trigger] v[i] <= 255 by {
                assert(v[i] == w@[i] as int);
            }
        }
    }
    r
}

pub proof fn lemma_parts_props(p: Seq<Seq<char>>, hex: bool)
    ensures
        parts_values(p, hex) matches Some(v) ==> v.len() == p.len() && (!hex ==> forall|i: int|
            0 <= i < v.len() ==> #[trigger] v[i] <= 255),
    decreases p.len(),
{
    if p.len() > 0 {
        lemma_parts_props(p.drop_last(), hex);
    }
}

fn v6_parts_groups_exec(parts: &[Vec<char>]) -> (r: Option<Vec<u32>>)
    ensures
        match v6_parts_groups(parts@.map_values(|p: Vec<char>| p@)) {
            Some(v) => r matches Some(w) && u32_views(w@) == v,
            None => r is None,
        },
{
    let ghost pv = parts@.map_values(|p: Vec<char>| p@);
    if parts.len() == 0 {
        let w: Vec<u32> = Vec::new();
        assert(u32_views(w@) =~= Seq::<int>::empty());
        return Some(w);
    }
    let n = parts.len() - 1;
    assert(pv.take(n as int) =~= pv.drop_last());
    match parts_values_exec(parts, n, true) {
        None => None,
        Some(mut g) => {
            let ghost gv = u32_views(g@);
            match hex_group_exec(parts[n].as_slice()) {
                Some(v) => {
                    g.push(v);
                    assert(u32_views(g@) =~= gv.push(v as int));
                    Some(g)
                },
                None => match ipv4_octets_exec(parts[n].as_slice()) {
                    Some(o) => {
                        let ghost ov = u32_views(o@);
                        assert(ov[0] == o@[0] as int && ov[1] == o@[1] as int);
                        assert(ov[2] == o@[2] as int && ov[3] == o@[3] as int);
                        g.push(o[0] * 256 + o[1]);
                        g.push(o[2] * 256 + o[3]);
                        assert(u32_views(g@) =~= gv + seq![ov[0] * 256 + ov[1], ov[2] * 256 + ov[3]]);
                        Some(g)
                    },
                    None => None,
                },
            }
        },
    }
}

fn ipv6_groups_exec(s: &[char]) -> (r: Option<Vec<u32>>)
    ensures
        match ipv6_groups(s@) {
            Some(v) => r matches Some(w) && u32_views(w@) == v,
            None => r is None,
        },
{
    let dc = vec![':', ':'];
    assert(dc@ =~= seq![':', ':']);
    match find_at_or_after(s, dc.as_slice(), 0) {
        None => {
            let parts = split_exec(s, ':');
            match v6_parts_groups_exec(parts.as_slice()) {
                Some(g) => if g.len() == 8 { Some(g) } else { None },
                None => None,
            }
        },
        Some(p) => {
            proof {
                lemma_find_from_props(s@, dc@, 0);
                assert(occurs_at(s@, dc@, p as int));
                assert(dc@.len() == 2);
                assert(p + 2 <= s@.len());
            }
            assert(p + 2 <= s.len());
            let left = slice_vec(s, 0, p);
            let right = slice_vec(s, p + 2, s.len());
            assert(left@ =~= s@.take(p as int));
            assert(right@ =~= s@.skip(p + 2));
            let l = if left.len() == 0 {
                let w: Vec<u32> = Vec::new();
                assert(u32_views(w@) =~= Seq::<int>::empty());
                Some(w)
            } else {
                let lp = split_exec(left.as_slice(), ':');
                let ghost lv = lp@.map_values(|p: Vec<char>| p@);
                assert(lv.take(lp.len() as int) =~= lv);
                parts_values_exec(lp.as_slice(), lp.len(), true)
            };
            let r = if right.len() == 0 {
                let w: Vec<u32> = Vec::new();
                assert(u32_views(w@) =~= Seq::<int>::empty());
                Some(w)
            } else {
                let rp = split_exec(right.as_slice(), ':');
                v6_parts_groups_exec(rp.as_slice())
            };
            match (l, r) {
                (Some(a), Some(b)) => {
                    if a.len() > 7 || b.len() > 7 - a.len() {
                        return None;
                    }
                    let ghost av = u32_views(a@);
                    let ghost bv = u32_views(b@);
                    let zeros = 8 - a.len() - b.len();
                    let mut out = a;
                    let mut k: usize = 0;
                    while k < zeros
                        invariant
                            k <= zeros,
                            u32_views(out@) =~= av + Seq::new(k as nat, |i: int| 0int),
                        decreases zeros - k,
                    {
                        let ghost before = out@;
                        out.push(0);
                        assert(u32_views(out@) =~= u32_views(before).push(0int));
                        assert(Seq::new((k + 1) as nat, |i: int| 0int) =~= Seq::new(k as nat, |i: int| 0int).push(0int));
                        k = k + 1;
                    }
                    let mut j: usize = 0;
                    while j < b.len()
                        invariant
                            j <= b.len(),
                            bv == u32_views(b@),
                            u32_views(out@) =~= av + Seq::new(zeros as nat, |i: int| 0int)
                                + bv.take(j as int),
                        decreases b.len() - j,
                    {
                        let ghost before = out@;
                        out.push(b[j]);
                        assert(u32_views(out@) =~= u32_views(before).push(b@[j as int] as int));
                        assert(bv.take(j + 1) =~= bv.take(j as int).push(bv[j as int]));
                        j = j + 1;
                    }
                    assert(bv.take(b.len() as int) =~= bv);
                    Some(out)
                },
                _ => None,
            }
        },
    }
}

/// Whether `host` names a blocked address, when it is an IP literal (see
/// [`ip_literal_blocked`]).
pub fn ip_literal_blocked_exec(host: &[char]) -> (r: Option<bool>)
    ensures
        r == ip_literal_blocked(host@),
{
    match ipv4_octets_exec(host) {
        Some(o) => {
            let ghost ov = u32_views(o@);
            assert(ov[0] == o@[0] as int && ov[1] == o@[1] as int);
            assert(ov[2] == o@[2] as int && ov[3] == o@[3] as int);
            let b = o[0] == 127 || o[0] == 10 || (o[0] == 172 && 16 <= o[1] && o[1] <= 31) || (o[0]
                == 192 && o[1] == 168) || (o[0] == 169 && o[1] == 254) || (o[0] == 255 && o[1]
                == 255 && o[2] == 255 && o[3] == 255) || o[0] == 0;
            Some(b)
        },
        None => match ipv6_groups_exec(host) {
            Some(g) => {
                let ghost gv = u32_views(g@);
                proof {
                    assert(gv.len() == 8) by {
                        lemma_v6_len(host@);
                    }
                }
                let mut low_zero = true;
                let mut i: usize = 0;
                while i < 7
                    invariant
                        i <= 7,
                        gv == u32_views(g@),
                        gv.len() == 8,
                        low_zero == (forall|m: int| 0 <= m < i ==> #[trigger] gv[m] == 0),
                    decreases 7 - i,
                {
                    assert(gv[i as int] == g@[i as int] as int);
                    if g[i] != 0 {
                        low_zero = false;
                    }
                    i = i + 1;
                }
                assert(gv[0] == g@[0] as int);
                assert(gv[7] == g@[7] as int);
                let b = (low_zero && (g[7] == 0 || g[7] == 1)) || (0xfc00 <= g[0] && g[0] <= 0xfdff) || (0xfe80 <= g[0] && g[0]
                    <= 0xfebf);
                Some(b)
            },
            None => None,
        },
    }
}

pub proof fn lemma_v6_len(s: Seq<char>)
    ensures
        ipv6_groups(s) matches Some(g) ==> g.len() == 8,
{
    if ipv6_groups(s) is Some {
        match find_from(s, seq![':', ':'], 0) {
            None => {},
            Some(p) => {
                let left = s.take(p);
                let right = s.skip(p + 2);
                let l = if left.len() == 0 { Some(seq![]) } else { parts_values(split_on(left, ':'), true) };
                let r = if right.len() == 0 { Some(seq![]) } else { v6_parts_groups(split_on(right, ':')) };
                let a = l->0;
                let b = r->0;
                assert((a + Seq::new((8 - a.len() - b.len()) as nat, |i: int| 0int) + b).len() == 8);
            },
        }
    }
}

} // verus!
