//! Lists of strings: membership, sorting (with and without repeats), and
//! string-keyed maps held as `(key, value)` pairs with distinct keys.
use vstd::prelude::*;
use crate::manifest::{pairs_map, str_views};
use crate::text::{chars_of, lemma_lex_irrefl, lemma_lex_total, lemma_lex_trans, lex_less, lex_lt, same, sorted_strs};

verus! {

broadcast use vstd::seq_lib::group_to_multiset_ensures;

/// Non-decreasing in lexicographic order.
pub open spec fn sorted_le(v: Seq<Seq<char>>) -> bool {
    forall|i: int, j: int| 0 <= i < j < v.len() ==> !lex_lt(#[trigger] v[j], #[trigger] v[i])
}

/// `x` is one of `v`.
pub fn has_string(v: &[String], x: &str) -> (r: bool)
    ensures
        r == str_views(v@).contains(x@),
{
    let xc = chars_of(x);
    let mut i: usize = 0;
    while i < v.len()
        invariant
            i <= v@.len(),
            xc@ == x@,
            forall|j: int| 0 <= j < i ==> v@[j]@ != x@,
        decreases v.len() - i,
    {
        if same(chars_of(v[i].as_str()).as_slice(), xc.as_slice()) {
            assert(str_views(v@)[i as int] == x@);
            return true;
        }
        i += 1;
    }
    proof {
        if str_views(v@).contains(x@) {
            let j = choose|j: int| 0 <= j < str_views(v@).len() && str_views(v@)[j] == x@;
            assert(v@[j]@ == x@);
        }
    }
    false
}

/// The strings sorted, repeats kept.
pub fn sort_strings(v: Vec<String>) -> (r: Vec<String>)
    ensures
        sorted_le(str_views(r@)),
        str_views(r@).to_multiset() == str_views(v@).to_multiset(),
{
    let mut out: Vec<String> = Vec::new();
    let mut i: usize = 0;
    while i < v.len()
        invariant
            i <= v@.len(),
            sorted_le(str_views(out@)),
            str_views(out@).to_multiset() == str_views(v@).take(i as int).to_multiset(),
        decreases v.len() - i,
    {
        let x = v[i].clone();
        let xc = chars_of(x.as_str());
        let ghost ov = str_views(out@);
        let mut p: usize = 0;
        while p < out.len() && !lex_less(xc.as_slice(), chars_of(out[p].as_str()).as_slice())
            invariant
                p <= out@.len(),
                str_views(out@) == ov,
                xc@ == x@,
                forall|j: int| 0 <= j < p ==> !lex_lt(x@, #[trigger] ov[j]),
            decreases out.len() - p,
        {
            p += 1;
        }
        let ghost xv = x@;
        out.insert(p, x);
        proof {
            let nv = str_views(out@);
            assert(nv =~= ov.insert(p as int, xv));
            assert forall|a: int, b: int| 0 <= a < b < nv.len() implies !lex_lt(#[trigger] nv[b], #[trigger] nv[a]) by {
                if b < p {
                    assert(nv[a] == ov[a] && nv[b] == ov[b]);
                } else if b == p {
                    assert(nv[a] == ov[a]);
                } else if a < p {
                    assert(nv[a] == ov[a] && nv[b] == ov[b - 1]);
                } else if a == p {
                    assert(nv[b] == ov[b - 1]);
                    assert(lex_lt(xv, ov[p as int]));
                    if lex_lt(ov[b - 1], xv) {
                        lemma_lex_trans(ov[b - 1], xv, ov[p as int]);
                        if b - 1 == p {
                            lemma_lex_irrefl(ov[p as int]);
                        }
                    }
                } else {
                    assert(nv[a] == ov[a - 1] && nv[b] == ov[b - 1]);
                }
            }
            assert(str_views(v@).take(i as int + 1) =~= str_views(v@).take(i as int).push(xv));
            vstd::seq_lib::to_multiset_insert(ov, p as int, xv);
            vstd::seq_lib::to_multiset_build(str_views(v@).take(i as int), xv);
        }
        i += 1;
    }
    assert(str_views(v@).take(v@.len() as int) =~= str_views(v@));
    out
}

/// The distinct strings of `v`, sorted.
pub fn sorted_unique(v: &[String]) -> (r: Vec<String>)
    ensures
        sorted_strs(str_views(r@)),
        forall|y: Seq<char>| #[trigger] str_views(r@).contains(y) <==> str_views(v@).contains(y),
{
    let mut out: Vec<String> = Vec::new();
    let mut i: usize = 0;
    while i < v.len()
        invariant
            i <= v@.len(),
            sorted_strs(str_views(out@)),
            forall|y: Seq<char>| #[trigger] str_views(out@).contains(y) <==> str_views(v@).take(i as int).contains(y),
        decreases v.len() - i,
    {
        let x = v[i].clone();
        let xc = chars_of(x.as_str());
        let ghost ov = str_views(out@);
        let mut p: usize = 0;
        while p < out.len() && lex_less(chars_of(out[p].as_str()).as_slice(), xc.as_slice())
            invariant
                p <= out@.len(),
                str_views(out@) == ov,
                xc@ == x@,
                sorted_strs(ov),
                forall|j: int| 0 <= j < p ==> lex_lt(#[trigger] ov[j], x@),
            decreases out.len() - p,
        {
            p += 1;
        }
        let ghost xv = x@;
        let ghost t = str_views(v@).take(i as int + 1);
        let ghost u = str_views(v@).take(i as int);
        proof {
            assert(t =~= u.push(xv));
            assert forall|y: Seq<char>| #[trigger] t.contains(y) <==> (u.contains(y) || y == xv) by {
                if t.contains(y) {
                    let k = choose|k: int| 0 <= k < t.len() && t[k] == y;
                    if k < u.len() {
                        assert(u[k] == y);
                    }
                }
                if u.contains(y) {
                    let k = choose|k: int| 0 <= k < u.len() && u[k] == y;
                    assert(t[k] == y);
                }
                if y == xv {
                    assert(t[i as int] == y);
                }
            }
        }
        if p < out.len() && same(chars_of(out[p].as_str()).as_slice(), xc.as_slice()) {
            assert(ov[p as int] == xv);
        } else {
            out.insert(p, x);
            proof {
                let nv = str_views(out@);
                assert(nv =~= ov.insert(p as int, xv));
                if p < ov.len() {
                    lemma_lex_total(xv, ov[p as int]);
                }
                assert forall|a: int, b: int| 0 <= a < b < nv.len() implies lex_lt(#[trigger] nv[a], #[trigger] nv[b]) by {
                    if b < p {
                    } else if b == p {
                    } else if a < p {
                        assert(nv[b] == ov[b - 1]);
                        if b - 1 > p {
                            lemma_lex_trans(xv, ov[p as int], ov[b - 1]);
                        }
                        lemma_lex_trans(nv[a], xv, nv[b]);
                    } else if a == p {
                        assert(nv[b] == ov[b - 1]);
                        if b - 1 > p {
                            lemma_lex_trans(xv, ov[p as int], ov[b - 1]);
                        }
                    } else {
                        assert(nv[a] == ov[a - 1]);
                        assert(nv[b] == ov[b - 1]);
                    }
                }
                assert forall|y: Seq<char>| #[trigger] nv.contains(y) <==> (ov.contains(y) || y == xv) by {
                    if nv.contains(y) {
                        let k = choose|k: int| 0 <= k < nv.len() && nv[k] == y;
                        if k < p {
                            assert(ov[k] == y);
                        } else if k > p {
                            assert(ov[k - 1] == y);
                        }
                    }
                    if ov.contains(y) {
                        let k = choose|k: int| 0 <= k < ov.len() && ov[k] == y;
                        if k < p {
                            assert(nv[k] == y);
                        } else {
                            assert(nv[k + 1] == y);
                        }
                    }
                    if y == xv {
                        assert(nv[p as int] == y);
                    }
                }
            }
        }
        i += 1;
    }
    assert(str_views(v@).take(v@.len() as int) =~= str_views(v@));
    out
}

/// No key occurs twice.
pub open spec fn distinct_keys(ps: Seq<(String, String)>) -> bool {
    forall|i: int, j: int| 0 <= i < j < ps.len() ==> (#[trigger] ps[i]).0@ != (#[trigger] ps[j]).0@
}

proof fn lemma_pairs_map_update(ps: Seq<(String, String)>, i: int, k: String, v: String)
    requires
        0 <= i < ps.len(),
        distinct_keys(ps),
        k@ == ps[i].0@,
    ensures
        pairs_map(ps.update(i, (k, v))) == pairs_map(ps).insert(k@, v@),
    decreases ps.len(),
{
    let nps = ps.update(i, (k, v));
    if i == ps.len() - 1 {
        assert(nps.drop_last() =~= ps.drop_last());
        assert(pairs_map(ps.drop_last()).insert(ps[i].0@, ps.last().1@).insert(ps[i].0@, v@) =~= pairs_map(
            ps.drop_last(),
        ).insert(ps[i].0@, v@));
    } else {
        let pre = ps.drop_last();
        assert forall|a: int, b: int| 0 <= a < b < pre.len() implies (#[trigger] pre[a]).0@ != (#[trigger] pre[b]).0@ by {
            assert(pre[a] == ps[a] && pre[b] == ps[b]);
        }
        lemma_pairs_map_update(pre, i, k, v);
        assert(nps.drop_last() =~= pre.update(i, (k, v)));
        assert(nps.last() == ps.last());
        assert(ps[ps.len() - 1] == ps.last());
        assert(ps.last().0@ != ps[i].0@);
        assert(pairs_map(pre).insert(ps[i].0@, v@).insert(ps.last().0@, ps.last().1@) =~= pairs_map(pre).insert(
            ps.last().0@,
            ps.last().1@,
        ).insert(ps[i].0@, v@));
    }
}

/// Sets `key` to `value` in a pair list with distinct keys: replaces the
/// value where the key is present, appends otherwise.
pub fn map_put(ps: &mut Vec<(String, String)>, key: String, value: String)
    requires
        distinct_keys(old(ps)@),
    ensures
        distinct_keys(final(ps)@),
        pairs_map(final(ps)@) == pairs_map(old(ps)@).insert(key@, value@),
{
    let mut i: usize = 0;
    while i < ps.len()
        invariant
            i <= ps@.len(),
            ps@ == old(ps)@,
            distinct_keys(ps@),
            forall|j: int| 0 <= j < i ==> ps@[j].0@ != key@,
        decreases ps.len() - i,
    {
        if same(chars_of(ps[i].0.as_str()).as_slice(), chars_of(key.as_str()).as_slice()) {
            let ghost before = ps@;
            let k = ps[i].0.clone();
            let ghost kv = k;
            let ghost vv = value;
            proof {
                lemma_pairs_map_update(before, i as int, kv, vv);
            }
            ps.set(i, (k, value));
            proof {
                assert(ps@ =~= before.update(i as int, (kv, vv)));
                assert forall|a: int, b: int| 0 <= a < b < ps@.len() implies (#[trigger] ps@[a]).0@ != (#[trigger] ps@[b]).0@ by {
                    assert(before[a].0@ != before[b].0@);
                }
            }
            return;
        }
        i += 1;
    }
    let ghost before = ps@;
    ps.push((key, value));
    proof {
        assert(ps@.drop_last() =~= before);
        assert forall|a: int, b: int| 0 <= a < b < ps@.len() implies (#[trigger] ps@[a]).0@ != (#[trigger] ps@[b]).0@ by {
            if b < before.len() {
                assert(before[a].0@ != before[b].0@);
            }
        }
    }
}

} // verus!
