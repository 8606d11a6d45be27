//! Slash-separated path model: components, prefix tests and file extensions.
use vstd::prelude::*;

use crate::text::{chars_eq, find_at_or_after, find_from, lemma_find_from_props, slice_vec};

verus! {

/// Pieces of `s` between occurrences of `c`, starting at index `k`.
pub open spec fn split_from(s: Seq<char>, c: char, k: int) -> Seq<Seq<char>>
    decreases s.len() + 1 - k,
{
    if k < 0 || k > s.len() {
        seq![]
    } else {
        match find_from(s, seq![c], k) {
            Some(j) => {
                proof {
                    lemma_find_from_props(s, seq![c], k);
                }
                seq![s.subrange(k, j)] + split_from(s, c, j + 1)
            },
            None => seq![s.subrange(k, s.len() as int)],
        }
    }
}

/// Pieces of `s` separated by `c` (`str::split`).
pub open spec fn split_seq(s: Seq<char>, c: char) -> Seq<Seq<char>> {
    split_from(s, c, 0)
}

/// Split `s` at every `c`.
pub fn split_chars(s: &[char], c: char) -> (r: Vec<Vec<char>>)
    ensures
        r@.map_values(|v: Vec<char>| v@) == split_seq(s@, c),
{
    let pat = vec![c];
    assert(pat@ =~= seq![c]);
    let mut out: Vec<Vec<char>> = Vec::new();
    let mut k: usize = 0;
    loop
        invariant
            k <= s.len(),
            pat@ == seq![c],
            split_seq(s@, c) == out@.map_values(|v: Vec<char>| v@) + split_from(s@, c, k as int),
        decreases s.len() + 1 - k,
    {
        let ghost before = out@.map_values(|v: Vec<char>| v@);
        match find_at_or_after(s, pat.as_slice(), k) {
            Some(j) => {
                proof {
                    lemma_find_from_props(s@, seq![c], k as int);
                }
                let piece = slice_vec(s, k, j);
                out.push(piece);
                assert(out@.map_values(|v: Vec<char>| v@) =~= before.push(s@.subrange(
                    k as int,
                    j as int,
                )));
                assert(before.push(s@.subrange(k as int, j as int)) + split_from(s@, c, j + 1)
                    =~= before + split_from(s@, c, k as int));
                k = j + 1;
            },
            None => {
                let piece = slice_vec(s, k, s.len());
                out.push(piece);
                assert(out@.map_values(|v: Vec<char>| v@) =~= before + split_from(
                    s@,
                    c,
                    k as int,
                ));
                return out;
            },
        }
    }
}

/// Path components of a `/`-separated path: a root marker `/` for absolute paths,
/// then every non-empty segment other than `.`.
pub open spec fn components(p: Seq<char>) -> Seq<Seq<char>> {
    (if p.len() > 0 && p[0] == '/' {
        seq![seq!['/']]
    } else {
        Seq::<Seq<char>>::empty()
    }) + normal_segments(split_seq(p, '/'))
}

/// The segments that name something: non-empty and not `.`.
pub open spec fn normal_segments(segs: Seq<Seq<char>>) -> Seq<Seq<char>>
    decreases segs.len(),
{
    if segs.len() == 0 {
        seq![]
    } else {
        let rest = normal_segments(segs.drop_last());
        let s = segs.last();
        if s.len() == 0 || s == seq!['.'] {
            rest
        } else {
            rest.push(s)
        }
    }
}

/// `base`'s components are a prefix of `p`'s (`Path::starts_with`).
pub open spec fn path_starts_with(p: Seq<char>, base: Seq<char>) -> bool {
    let a = components(p);
    let b = components(base);
    b.len() <= a.len() && a.subrange(0, b.len() as int) == b
}

/// Components of `p` (see [`components`]).
pub fn path_components(p: &[char]) -> (r: Vec<Vec<char>>)
    ensures
        r@.map_values(|v: Vec<char>| v@) == components(p@),
{
    let segs = split_chars(p, '/');
    let ghost sv = segs@.map_values(|v: Vec<char>| v@);
    let mut out: Vec<Vec<char>> = Vec::new();
    if p.len() > 0 && p[0] == '/' {
        let r = vec!['/'];
        assert(r@ =~= seq!['/']);
        out.push(r);
        assert(out@.map_values(|v: Vec<char>| v@) =~= seq![seq!['/']]);
    } else {
        assert(out@.map_values(|v: Vec<char>| v@) =~= Seq::<Seq<char>>::empty());
    }
    let ghost head = out@.map_values(|v: Vec<char>| v@);
    let dot = vec!['.'];
    let mut i: usize = 0;
    while i < segs.len()
        invariant
            i <= segs.len(),
            sv == segs@.map_values(|v: Vec<char>| v@),
            sv == split_seq(p@, '/'),
            dot@ == seq!['.'],
            out@.map_values(|v: Vec<char>| v@) == head + normal_segments(sv.take(i as int)),
        decreases segs.len() - i,
    {
        assert(sv.take(i + 1).drop_last() =~= sv.take(i as int));
        assert(sv.take(i + 1).last() == segs@[i as int]@);
        let ghost before = out@.map_values(|v: Vec<char>| v@);
        if segs[i].len() > 0 && !chars_eq(segs[i].as_slice(), dot.as_slice()) {
            let seg = slice_vec(segs[i].as_slice(), 0, segs[i].len());
            assert(seg@ =~= segs@[i as int]@);
            out.push(seg);
            assert(out@.map_values(|v: Vec<char>| v@) =~= before.push(segs@[i as int]@));
        }
        i = i + 1;
    }
    assert(sv.take(segs.len() as int) =~= sv);
    out
}

/// Whether two component lists are equal.
pub fn components_eq(a: &Vec<Vec<char>>, b: &Vec<Vec<char>>) -> (r: bool)
    ensures
        r == (a@.map_values(|v: Vec<char>| v@) == b@.map_values(|v: Vec<char>| v@)),
{
    let ghost av = a@.map_values(|v: Vec<char>| v@);
    let ghost bv = b@.map_values(|v: Vec<char>| v@);
    if a.len() != b.len() {
        assert(av.len() != bv.len());
        return false;
    }
    let mut i: usize = 0;
    while i < a.len()
        invariant
            i <= a.len() == b.len(),
            av == a@.map_values(|v: Vec<char>| v@),
            bv == b@.map_values(|v: Vec<char>| v@),
            forall|m: int| 0 <= m < i ==> av[m] == bv[m],
        decreases a.len() - i,
    {
        if !chars_eq(a[i].as_slice(), b[i].as_slice()) {
            assert(av[i as int] != bv[i as int]);
            return false;
        }
        i = i + 1;
    }
    assert(av =~= bv);
    true
}

/// Whether the components of `base` prefix those of `p`.
pub fn path_starts_with_exec(p: &[char], base: &[char]) -> (b: bool)
    ensures
        b == path_starts_with(p@, base@),
{
    let a = path_components(p);
    let c = path_components(base);
    let ghost av = a@.map_values(|v: Vec<char>| v@);
    let ghost cv = c@.map_values(|v: Vec<char>| v@);
    if c.len() > a.len() {
        return false;
    }
    let mut i: usize = 0;
    while i < c.len()
        invariant
            i <= c.len() <= a.len(),
            av == a@.map_values(|v: Vec<char>| v@),
            cv == c@.map_values(|v: Vec<char>| v@),
            av == components(p@),
            cv == components(base@),
            forall|m: int| 0 <= m < i ==> av[m] == cv[m],
        decreases c.len() - i,
    {
        assert(av[i as int] == a@[i as int]@);
        assert(cv[i as int] == c@[i as int]@);
        if !chars_eq(a[i].as_slice(), c[i].as_slice()) {
            assert(av.subrange(0, cv.len() as int)[i as int] != cv[i as int]);
            return false;
        }
        i = i + 1;
    }
    assert(av.subrange(0, cv.len() as int) =~= cv);
    true
}

/// Index of the last `c` in `s`.
pub open spec fn last_index(s: Seq<char>, c: char) -> Option<int>
    decreases s.len(),
{
    if s.len() == 0 {
        None
    } else if s.last() == c {
        Some(s.len() - 1)
    } else {
        last_index(s.drop_last(), c)
    }
}

/// Extension of the file named by `p` (`Path::extension`): the text after the last `.`
/// of the final component, when that `.` is not its first character.
pub open spec fn extension_of(p: Seq<char>) -> Option<Seq<char>> {
    let cs = components(p);
    if cs.len() == 0 || cs.last() == seq!['/'] || cs.last() == seq!['.', '.'] {
        None
    } else {
        let name = cs.last();
        match last_index(name, '.') {
            Some(i) => if i > 0 {
                Some(name.subrange(i + 1, name.len() as int))
            } else {
                None
            },
            None => None,
        }
    }
}

pub fn last_index_exec(s: &[char], c: char) -> (r: Option<usize>)
    ensures
        match r {
            Some(i) => i < s.len() && last_index(s@, c) == Some(i as int),
            None => last_index(s@, c) is None,
        },
{
    let mut n = s.len();
    assert(s@.subrange(0, n as int) =~= s@);
    while n > 0
        invariant
            n <= s.len(),
            last_index(s@, c) == last_index(s@.subrange(0, n as int), c),
        decreases n,
    {
        if s[n - 1] == c {
            return Some(n - 1);
        }
        assert(s@.subrange(0, n as int).drop_last() =~= s@.subrange(0, n - 1));
        n = n - 1;
    }
    None
}

/// Extension of the file named by `p` (see [`extension_of`]).
pub fn path_extension(p: &[char]) -> (r: Option<Vec<char>>)
    ensures
        match r {
            Some(e) => extension_of(p@) == Some(e@),
            None => extension_of(p@) is None,
        },
{
    let cs = path_components(p);
    let ghost cv = cs@.map_values(|v: Vec<char>| v@);
    if cs.len() == 0 {
        return None;
    }
    let last = &cs[cs.len() - 1];
    assert(last@ == cv.last());
    let root = vec!['/'];
    let dd = vec!['.', '.'];
    if chars_eq(last.as_slice(), root.as_slice()) || chars_eq(last.as_slice(), dd.as_slice()) {
        assert(root@ =~= seq!['/']);
        assert(dd@ =~= seq!['.', '.']);
        return None;
    }
    assert(root@ =~= seq!['/']);
    assert(dd@ =~= seq!['.', '.']);
    match last_index_exec(last.as_slice(), '.') {
        Some(i) => if i > 0 {
            Some(slice_vec(last.as_slice(), i + 1, last.len()))
        } else {
            None
        },
        None => None,
    }
}

} // verus!
