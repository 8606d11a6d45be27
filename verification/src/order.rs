//! Lexicographic order of strings (by character code, as `str`'s `Ord`), and sorting.
use vstd::prelude::*;

verus! {

/// `a` sorts strictly before `b`: at the first differing position `a` has the smaller
/// character, or `a` is a proper prefix of `b`.
pub open spec fn seq_lt(a: Seq<char>, b: Seq<char>) -> bool
    decreases a.len(),
{
    if b.len() == 0 {
        false
    } else if a.len() == 0 {
        true
    } else if a[0] != b[0] {
        (a[0] as int) < (b[0] as int)
    } else {
        seq_lt(a.drop_first(), b.drop_first())
    }
}

pub proof fn lemma_lt_irreflexive(a: Seq<char>)
    ensures
        !seq_lt(a, a),
    decreases a.len(),
{
    if a.len() > 0 {
        lemma_lt_irreflexive(a.drop_first());
    }
}

pub proof fn lemma_lt_total(a: Seq<char>, b: Seq<char>)
    ensures
        a == b || seq_lt(a, b) || seq_lt(b, a),
    decreases a.len(),
{
    if a.len() > 0 && b.len() > 0 && a[0] == b[0] {
        lemma_lt_total(a.drop_first(), b.drop_first());
        if a.drop_first() == b.drop_first() {
            assert(a =~= seq![a[0]] + a.drop_first());
            assert(b =~= seq![b[0]] + b.drop_first());
        }
    } else if a.len() == 0 && b.len() == 0 {
        assert(a =~= b);
    } else if a.len() > 0 && b.len() > 0 {
        assert((a[0] as int) != (b[0] as int));
    }
}

pub proof fn lemma_lt_asymmetric(a: Seq<char>, b: Seq<char>)
    requires
        seq_lt(a, b),
    ensures
        !seq_lt(b, a),
    decreases a.len(),
{
    if a.len() > 0 && b.len() > 0 && a[0] == b[0] {
        lemma_lt_asymmetric(a.drop_first(), b.drop_first());
    }
}

pub proof fn lemma_lt_transitive(a: Seq<char>, b: Seq<char>, c: Seq<char>)
    requires
        seq_lt(a, b),
        seq_lt(b, c),
    ensures
        seq_lt(a, c),
    decreases a.len(),
{
    if a.len() > 0 && b.len() > 0 && c.len() > 0 && a[0] == b[0] && b[0] == c[0] {
        lemma_lt_transitive(a.drop_first(), b.drop_first(), c.drop_first());
    }
}

/// Whether `a` sorts strictly before `b`.
pub fn chars_lt(a: &[char], b: &[char]) -> (r: bool)
    ensures
        r == seq_lt(a@, b@),
{
    let mut i: usize = 0;
    assert(a@.subrange(0, a.len() as int) =~= a@);
    assert(b@.subrange(0, b.len() as int) =~= b@);
    while i < a.len() && i < b.len() && a[i] == b[i]
        invariant
            i <= a.len(),
            i <= b.len(),
            seq_lt(a@, b@) == seq_lt(a@.subrange(i as int, a.len() as int), b@.subrange(i as int, b.len() as int)),
        decreases a.len() - i,
    {
        let ghost x = a@.subrange(i as int, a.len() as int);
        let ghost y = b@.subrange(i as int, b.len() as int);
        assert(x.drop_first() =~= a@.subrange(i + 1, a.len() as int));
        assert(y.drop_first() =~= b@.subrange(i + 1, b.len() as int));
        i = i + 1;
    }
    if i == b.len() {
        false
    } else if i == a.len() {
        true
    } else {
        a[i] < b[i]
    }
}

/// Whether `a` sorts strictly before `b`.
pub fn str_lt(a: &str, b: &str) -> (r: bool)
    ensures
        r == seq_lt(a@, b@),
{
    let ca = crate::text::chars_of(a);
    let cb = crate::text::chars_of(b);
    chars_lt(ca.as_slice(), cb.as_slice())
}

/// `s` is sorted without repeats.
pub open spec fn strictly_sorted(s: Seq<Seq<char>>) -> bool {
    forall|i: int, j: int| 0 <= i < j < s.len() ==> seq_lt(#[trigger] s[i], #[trigger] s[j])
}

pub open spec fn string_views(v: Seq<String>) -> Seq<Seq<char>> {
    v.map_values(|s: String| s@)
}

/// Insert `x` into the strictly sorted `out`, unless it is already there.
fn insert_sorted(out: &mut Vec<String>, x: String)
    requires
        strictly_sorted(string_views(old(out)@)),
    ensures
        strictly_sorted(string_views(final(out)@)),
        string_views(final(out)@).to_set() == string_views(old(out)@).to_set().insert(x@),
{
    let ghost before = string_views(out@);
    let mut i: usize = 0;
    while i < out.len() && str_lt(out[i].as_str(), x.as_str())
        invariant
            i <= out.len(),
            before == string_views(out@),
            strictly_sorted(before),
            forall|m: int| 0 <= m < i ==> seq_lt(#[trigger] before[m], x@),
        decreases out.len() - i,
    {
        assert(before[i as int] == out@[i as int]@);
        i = i + 1;
    }
    if i < out.len() && out[i] == x {
        assert(before[i as int] == x@);
        assert(before.to_set().insert(x@) =~= before.to_set());
        return;
    }
    proof {
        if i < out.len() {
            assert(before[i as int] == out@[i as int]@);
            lemma_lt_total(before[i as int], x@);
        }
    }
    let ghost xv = x@;
    out.insert(i, x);
    let ghost after = string_views(out@);
    assert(after =~= before.insert(i as int, xv));
    proof {
        assert forall|a: int, b: int| 0 <= a < b < after.len() implies seq_lt(#[trigger] after[a], #[trigger] after[b]) by {
            if b < i {
                assert(after[a] == before[a] && after[b] == before[b]);
            } else if b == i {
                assert(after[a] == before[a]);
                assert(after[b] == xv);
            } else if a == i {
                assert(after[a] == xv);
                assert(after[b] == before[b - 1]);
                if b - 1 > i {
                    assert(seq_lt(before[i as int], before[b - 1]));
                    lemma_lt_transitive(xv, before[i as int], before[b - 1]);
                }
            } else if a < i {
                assert(after[a] == before[a]);
                assert(after[b] == before[b - 1]);
                assert(seq_lt(before[a], xv));
                if a != b - 1 {
                    assert(seq_lt(before[a], before[b - 1]));
                }
            } else {
                assert(after[a] == before[a - 1]);
                assert(after[b] == before[b - 1]);
            }
        }
        assert forall|y: Seq<char>| after.to_set().contains(y) <==> before.to_set().insert(xv).contains(y) by {
            if after.to_set().contains(y) {
                let k = choose|k: int| 0 <= k < after.len() && after[k] == y;
                if k < i {
                    assert(before[k] == y);
                } else if k > i {
                    assert(before[k - 1] == y);
                }
            }
            if before.to_set().contains(y) {
                let k = choose|k: int| 0 <= k < before.len() && before[k] == y;
                if k < i {
                    assert(after[k] == y);
                } else {
                    assert(after[k + 1] == y);
                }
            }
            if y == xv {
                assert(after[i as int] == y);
            }
        }
        assert(after.to_set() =~= before.to_set().insert(xv));
    }
}

/// The strings of `v`, sorted, each once (`sort` then `dedup`).
pub fn sort_dedup(v: Vec<String>) -> (r: Vec<String>)
    ensures
        strictly_sorted(string_views(r@)),
        string_views(r@).to_set() == string_views(v@).to_set(),
{
    let ghost vv = string_views(v@);
    let mut out: Vec<String> = Vec::new();
    let mut i: usize = 0;
    assert(string_views(out@) =~= Seq::<Seq<char>>::empty());
    assert(vv.take(0).to_set() =~= string_views(out@).to_set());
    while i < v.len()
        invariant
            i <= v.len(),
            vv == string_views(v@),
            strictly_sorted(string_views(out@)),
            string_views(out@).to_set() == vv.take(i as int).to_set(),
        decreases v.len() - i,
    {
        insert_sorted(&mut out, v[i].clone());
        assert(vv.take(i + 1) =~= vv.take(i as int).push(vv[i as int]));
        proof {
            vv.take(i as int).lemma_push_to_set_commute(vv[i as int]);
        }
        i = i + 1;
    }
    assert(vv.take(v.len() as int) =~= vv);
    out
}


/// Lexicographic order of string pairs: by the first string, then by the second.
pub open spec fn pair_lt(a: (Seq<char>, Seq<char>), b: (Seq<char>, Seq<char>)) -> bool {
    seq_lt(a.0, b.0) || (a.0 == b.0 && seq_lt(a.1, b.1))
}

pub proof fn lemma_pair_lt_transitive(
    a: (Seq<char>, Seq<char>),
    b: (Seq<char>, Seq<char>),
    c: (Seq<char>, Seq<char>),
)
    requires
        pair_lt(a, b),
        pair_lt(b, c),
    ensures
        pair_lt(a, c),
{
    if seq_lt(a.0, b.0) && seq_lt(b.0, c.0) {
        lemma_lt_transitive(a.0, b.0, c.0);
    } else if seq_lt(a.0, b.0) || seq_lt(b.0, c.0) {
    } else {
        lemma_lt_transitive(a.1, b.1, c.1);
    }
}

/// No pair of `s` sorts before an earlier one.
pub open spec fn pairs_sorted(s: Seq<(Seq<char>, Seq<char>)>) -> bool {
    forall|i: int, j: int| 0 <= i < j < s.len() ==> !pair_lt(#[trigger] s[j], #[trigger] s[i])
}

pub open spec fn string_pairs(v: Seq<(String, String)>) -> Seq<(Seq<char>, Seq<char>)> {
    v.map_values(|p: (String, String)| (p.0@, p.1@))
}

fn pair_lt_exec(a: &(String, String), b: &(String, String)) -> (r: bool)
    ensures
        r == pair_lt((a.0@, a.1@), (b.0@, b.1@)),
{
    str_lt(a.0.as_str(), b.0.as_str()) || (a.0 == b.0 && str_lt(a.1.as_str(), b.1.as_str()))
}

/// The pairs of `v` sorted lexicographically; equal pairs keep their order (a stable sort).
pub fn sort_pairs(v: Vec<(String, String)>) -> (r: Vec<(String, String)>)
    ensures
        pairs_sorted(string_pairs(r@)),
        string_pairs(r@).to_multiset() == string_pairs(v@).to_multiset(),
{
    let ghost src = string_pairs(v@);
    let mut out: Vec<(String, String)> = Vec::new();
    let mut k: usize = 0;
    assert(src.take(0) =~= Seq::<(Seq<char>, Seq<char>)>::empty());
    assert(string_pairs(out@) =~= Seq::<(Seq<char>, Seq<char>)>::empty());
    while k < v.len()
        invariant
            k <= v.len(),
            src == string_pairs(v@),
            pairs_sorted(string_pairs(out@)),
            string_pairs(out@).to_multiset() == src.take(k as int).to_multiset(),
        decreases v.len() - k,
    {
        let ghost ov = string_pairs(out@);
        let x = &v[k];
        let ghost xv = (x.0@, x.1@);
        assert(src[k as int] == xv);
        let mut p: usize = 0;
        while p < out.len() && !pair_lt_exec(x, &out[p])
            invariant
                p <= out.len(),
                ov == string_pairs(out@),
                xv == (x.0@, x.1@),
                forall|q: int| 0 <= q < p ==> !pair_lt(xv, #[trigger] ov[q]),
            decreases out.len() - p,
        {
            assert(ov[p as int] == (out@[p as int].0@, out@[p as int].1@));
            p = p + 1;
        }
        proof {
            if p < out.len() {
                assert(ov[p as int] == (out@[p as int].0@, out@[p as int].1@));
            }
        }
        let copy = (x.0.clone(), x.1.clone());
        out.insert(p, copy);
        proof {
            let nv = string_pairs(out@);
            assert(nv =~= ov.insert(p as int, xv));
            if p < ov.len() {
                assert(pair_lt(xv, ov[p as int]));
            }
            lemma_lt_irreflexive(xv.0);
            lemma_lt_irreflexive(xv.1);
            assert forall|i: int, j: int| 0 <= i < j < nv.len() implies !pair_lt(#[trigger] nv[j], #[trigger] nv[i]) by {
                if j < p {
                    assert(nv[i] == ov[i] && nv[j] == ov[j]);
                } else if j == p {
                    assert(nv[i] == ov[i] && nv[j] == xv);
                } else if i == p {
                    assert(nv[i] == xv && nv[j] == ov[j - 1]);
                    if pair_lt(ov[j - 1], xv) {
                        lemma_pair_lt_transitive(ov[j - 1], xv, ov[p as int]);
                        lemma_lt_irreflexive(ov[p as int].0);
                        lemma_lt_irreflexive(ov[p as int].1);
                        if j - 1 > p {
                            assert(!pair_lt(ov[j - 1], ov[p as int]));
                        }
                    }
                } else if i < p {
                    assert(nv[i] == ov[i] && nv[j] == ov[j - 1]);
                } else {
                    assert(nv[i] == ov[i - 1] && nv[j] == ov[j - 1]);
                }
            }
            assert(src.take(k + 1) =~= src.take(k as int).push(xv));
            vstd::seq_lib::to_multiset_insert(ov, p as int, xv);
            vstd::seq_lib::to_multiset_build(src.take(k as int), xv);
        }
        k = k + 1;
    }
    assert(src.take(v.len() as int) =~= src);
    out
}

} // verus!
