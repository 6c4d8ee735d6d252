//! Laws of the Brewfile sort (sorting a sorted Brewfile changes nothing) and
//! of a reconcile plan's candidate list.
use vstd::prelude::*;
use crate::packages::{manager_str, Manager};
use crate::manifest::str_views;
use crate::reconcile::{
    dconf_items, items_spec, sections_items, section_items, tagged, ItemV, ReconcilePlan, DconfPlan,
    blank, comment_line, comment_start, drop_trailing_blank, entries_of, entry_gt, entry_lines, entry_order,
    first_pkg, insert_pos, is_pkg_line, sort_spec, stable_sort, walk_back, EntryV, with_adds_spec,
};
use crate::text::{
    first_ws, has_ws, is_first_ws, is_ws, join_nl, lemma_lex_total, lemma_lex_trans, lemma_lines_of_join,
    lemma_trim_end_is_prefix, lemma_trim_start_is_suffix, lex_lt, lines_of, no_nl, strip_cr, trim, trim_end, trim_start,
};

verus! {

// ---------------------------------------------------------------------------
// Lines that survive a join and a split unchanged.

/// A line with no newline and no trailing `\r`.
pub open spec fn clean(l: Seq<char>) -> bool {
    no_nl(l) && !(l.len() > 0 && l.last() == '\r')
}

pub open spec fn all_clean(ls: Seq<Seq<char>>) -> bool {
    forall|i: int| 0 <= i < ls.len() ==> clean(#[trigger] ls[i])
}

proof fn lemma_join_round_trip(ls: Seq<Seq<char>>)
    requires
        all_clean(ls),
    ensures
        lines_of(join_nl(ls)) == ls,
{
    assert forall|i: int| 0 <= i < ls.len() implies no_nl(#[trigger] ls[i]) by {
        assert(clean(ls[i]));
    }
    lemma_lines_of_join(ls);
    assert(ls.map_values(|l: Seq<char>| strip_cr(l)) =~= ls) by {
        assert forall|i: int| 0 <= i < ls.len() implies strip_cr(ls[i]) == ls[i] by {
            assert(clean(ls[i]));
        }
    }
}

// ---------------------------------------------------------------------------
// Comments and blanks are never packages.

proof fn lemma_first_ws_exists(s: Seq<char>)
    requires
        has_ws(s),
    ensures
        is_first_ws(s, first_ws(s)),
    decreases s.len(),
{
    if is_ws(s[0]) {
        assert(is_first_ws(s, 0));
    } else {
        let t = s.drop_first();
        let k = choose|k: int| 0 <= k < s.len() && is_ws(s[k]);
        assert(k > 0);
        assert(t[k - 1] == s[k]);
        lemma_first_ws_exists(t);
        let w = first_ws(t);
        assert forall|j: int| 0 <= j < w + 1 implies !is_ws(s[j]) by {
            if j > 0 {
                assert(s[j] == t[j - 1]);
            }
        }
        assert(s[w + 1] == t[w]);
        assert(is_first_ws(s, w + 1));
    }
}

proof fn lemma_trim_first(l: Seq<char>)
    ensures
        trim(l).len() > 0 ==> trim_start(l).len() > 0 && trim_start(l)[0] == trim(l)[0],
        trim(l).len() > 0 ==> !is_ws(trim(l)[0]),
{
    let e = trim_end(l);
    lemma_trim_end_is_prefix(l);
    lemma_trim_start_is_suffix(e);
    lemma_trim_start_is_suffix(l);
    crate::text::lemma_trim_ends(l);
    if trim(l).len() > 0 {
        // trim(l) = trim_start(e): the first non-space of `e`, which is the
        // first non-space of `l` as `e` is a prefix of `l`.
        lemma_ts_prefix(l, e.len() as int);
    }
}

/// The leading whitespace of a prefix that keeps some non-space is the
/// leading whitespace of the whole.
proof fn lemma_ts_prefix(l: Seq<char>, n: int)
    requires
        0 <= n <= l.len(),
        trim_start(l.subrange(0, n)).len() > 0,
    ensures
        trim_start(l).len() > 0,
        trim_start(l)[0] == trim_start(l.subrange(0, n))[0],
    decreases n,
{
    let p = l.subrange(0, n);
    if n > 0 && is_ws(p[0]) {
        assert(p.drop_first() =~= l.drop_first().subrange(0, n - 1));
        lemma_ts_prefix(l.drop_first(), n - 1);
    } else {
        assert(p.len() > 0);
        assert(!is_ws(l[0]));
    }
}

proof fn lemma_comment_start(l: Seq<char>)
    ensures
        comment_line(l) ==> comment_start(l),
        comment_line(l) ==> !blank(l),
{
    lemma_trim_first(l);
    if comment_line(l) {
        let e = trim_end(l);
        lemma_trim_end_is_prefix(l);
        assert(e == l.subrange(0, e.len() as int));
        lemma_ts_prefix(l, e.len() as int);
    }
}

/// A comment is not a package.
proof fn lemma_comment_not_pkg(l: Seq<char>)
    requires
        comment_line(l),
    ensures
        !is_pkg_line(l),
{
    let t = trim(l);
    if has_ws(t) {
        lemma_first_ws_exists(t);
        let w = first_ws(t);
        assert(w > 0) by {
            assert(t[0] == '#');
            assert(!is_ws('#'));
        }
        let kind = t.subrange(0, w);
        assert(kind[0] == '#');
        assert(crate::packages::manager_of(kind) is None) by {
            assert(manager_str(Manager::Brew)[0] == 'b');
            assert(manager_str(Manager::Cask)[0] == 'c');
            assert(manager_str(Manager::Tap)[0] == 't');
            assert(manager_str(Manager::Flatpak)[0] == 'f');
            assert(manager_str(Manager::Vscode)[0] == 'v');
            assert(manager_str(Manager::Mas)[0] == 'm');
        }
    }
}

/// A blank line is not a package.
proof fn lemma_blank_not_pkg(l: Seq<char>)
    requires
        blank(l),
    ensures
        !is_pkg_line(l),
{
    assert(!has_ws(trim(l)));
}

/// A package line is neither blank nor a comment.
proof fn lemma_pkg_is_entry(l: Seq<char>)
    requires
        is_pkg_line(l),
    ensures
        !blank(l),
        !comment_line(l),
{
    if blank(l) {
        lemma_blank_not_pkg(l);
    }
    if comment_line(l) {
        lemma_comment_not_pkg(l);
    }
}

// ---------------------------------------------------------------------------
// What entries look like.

/// An entry as the parse makes it: comment lines above a line that is
/// neither blank nor a comment, ordered by that line.
pub open spec fn good_entry(e: EntryV) -> bool {
    &&& all_clean(e.0)
    &&& forall|j: int| 0 <= j < e.0.len() ==> comment_line(#[trigger] e.0[j])
    &&& clean(e.1)
    &&& !blank(e.1)
    &&& !comment_line(e.1)
    &&& e.2 == entry_order(e.1).0
    &&& e.3 == entry_order(e.1).1
}

pub open spec fn good_entries(es: Seq<EntryV>) -> bool {
    forall|i: int| 0 <= i < es.len() ==> good_entry(#[trigger] es[i])
}

pub open spec fn all_comments(ls: Seq<Seq<char>>) -> bool {
    forall|i: int| 0 <= i < ls.len() ==> comment_line(#[trigger] ls[i])
}

proof fn lemma_entries_good(ls: Seq<Seq<char>>)
    requires
        all_clean(ls),
    ensures
        good_entries(entries_of(ls).0),
        all_clean(entries_of(ls).1),
        all_comments(entries_of(ls).1),
    decreases ls.len(),
{
    if ls.len() > 0 {
        let init = ls.drop_last();
        assert forall|i: int| 0 <= i < init.len() implies clean(#[trigger] init[i]) by {
            assert(init[i] == ls[i]);
        }
        lemma_entries_good(init);
        assert(clean(ls[ls.len() - 1]));
        let (es, p) = entries_of(init);
        let l = ls.last();
        if blank(l) {
        } else if comment_line(l) {
            assert(all_clean(p.push(l))) by {
                assert forall|i: int| 0 <= i < p.push(l).len() implies clean(#[trigger] p.push(l)[i]) by {
                    if i < p.len() {
                        assert(p.push(l)[i] == p[i]);
                    }
                }
            }
            assert(all_comments(p.push(l))) by {
                assert forall|i: int| 0 <= i < p.push(l).len() implies comment_line(#[trigger] p.push(l)[i]) by {
                    if i < p.len() {
                        assert(p.push(l)[i] == p[i]);
                    }
                }
            }
        } else {
            let e: EntryV = (p, l, entry_order(l).0, entry_order(l).1);
            assert(good_entry(e));
            assert forall|i: int| 0 <= i < es.push(e).len() implies good_entry(#[trigger] es.push(e)[i]) by {
                if i < es.len() {
                    assert(es.push(e)[i] == es[i]);
                }
            }
            assert(all_clean(Seq::<Seq<char>>::empty()));
        }
    }
}

/// A line that is neither blank nor a comment becomes an entry.
proof fn lemma_line_becomes_entry(ls: Seq<Seq<char>>, k: int)
    requires
        0 <= k < ls.len(),
        !blank(ls[k]),
        !comment_line(ls[k]),
    ensures
        exists|j: int| 0 <= j < entries_of(ls).0.len() && (#[trigger] entries_of(ls).0[j]).1 == ls[k],
    decreases ls.len(),
{
    let init = ls.drop_last();
    let (es, p) = entries_of(init);
    if k == ls.len() - 1 {
        let e: EntryV = (p, ls.last(), entry_order(ls.last()).0, entry_order(ls.last()).1);
        assert(entries_of(ls).0 == es.push(e));
        assert(entries_of(ls).0[es.len() as int].1 == ls[k]);
    } else {
        assert(init[k] == ls[k]);
        lemma_line_becomes_entry(init, k);
        let j = choose|j: int| 0 <= j < es.len() && (#[trigger] es[j]).1 == ls[k];
        lemma_entries_grow(ls);
        assert(entries_of(ls).0[j] == es[j]);
    }
}

/// Entries only ever grow as lines are added.
proof fn lemma_entries_grow(ls: Seq<Seq<char>>)
    requires
        ls.len() > 0,
    ensures
        entries_of(ls.drop_last()).0.len() <= entries_of(ls).0.len(),
        forall|j: int| 0 <= j < entries_of(ls.drop_last()).0.len() ==> entries_of(ls).0[j] == #[trigger] entries_of(ls.drop_last()).0[j],
{
}

// ---------------------------------------------------------------------------
// The stable sort.

/// No entry is greater than one after it.
pub open spec fn sorted_entries(s: Seq<EntryV>) -> bool {
    forall|i: int, j: int| 0 <= i < j < s.len() ==> !entry_gt(#[trigger] s[i], #[trigger] s[j])
}

proof fn lemma_le_trans(a: EntryV, b: EntryV, c: EntryV)
    requires
        !entry_gt(a, b),
        !entry_gt(b, c),
    ensures
        !entry_gt(a, c),
{
    if a.2 == c.2 && lex_lt(c.3, a.3) {
        lemma_lex_total(b.3, c.3);
        if lex_lt(b.3, c.3) {
            lemma_lex_trans(b.3, c.3, a.3);
        }
    }
}

proof fn lemma_gt_asym(a: EntryV, b: EntryV)
    requires
        entry_gt(a, b),
    ensures
        !entry_gt(b, a),
{
    lemma_lex_total(a.3, b.3);
}

proof fn lemma_insert_pos(s: Seq<EntryV>, x: EntryV)
    ensures
        0 <= insert_pos(s, x) <= s.len(),
        forall|k: int| insert_pos(s, x) <= k < s.len() ==> entry_gt(#[trigger] s[k], x),
        insert_pos(s, x) > 0 ==> !entry_gt(s[insert_pos(s, x) - 1], x),
    decreases s.len(),
{
    if s.len() > 0 && entry_gt(s.last(), x) {
        lemma_insert_pos(s.drop_last(), x);
        let p = insert_pos(s, x);
        assert forall|k: int| p <= k < s.len() implies entry_gt(#[trigger] s[k], x) by {
            if k < s.len() - 1 {
                assert(s[k] == s.drop_last()[k]);
            }
        }
        if p > 0 {
            assert(s[p - 1] == s.drop_last()[p - 1]);
        }
    }
}

/// Inserting at the stable position keeps a sorted sequence sorted.
proof fn lemma_insert_sorted(s: Seq<EntryV>, x: EntryV)
    requires
        sorted_entries(s),
    ensures
        sorted_entries(s.insert(insert_pos(s, x), x)),
{
    lemma_insert_pos(s, x);
    let p = insert_pos(s, x);
    let r = s.insert(p, x);
    assert forall|i: int, j: int| 0 <= i < j < r.len() implies !entry_gt(#[trigger] r[i], #[trigger] r[j]) by {
        if j < p {
            assert(r[i] == s[i] && r[j] == s[j]);
        } else if j == p {
            assert(r[i] == s[i]);
            if i < p - 1 {
                lemma_le_trans(s[i], s[p - 1], x);
            }
        } else if i < p {
            assert(r[i] == s[i] && r[j] == s[j - 1]);
        } else if i == p {
            assert(r[j] == s[j - 1]);
            lemma_gt_asym(s[j - 1], x);
        } else {
            assert(r[i] == s[i - 1] && r[j] == s[j - 1]);
        }
    }
}

proof fn lemma_sort_facts(es: Seq<EntryV>)
    ensures
        stable_sort(es).len() == es.len(),
        sorted_entries(stable_sort(es)),
        forall|k: int| 0 <= k < es.len() ==> stable_sort(es).contains(#[trigger] es[k]),
        forall|k: int| 0 <= k < es.len() ==> es.contains(#[trigger] stable_sort(es)[k]),
    decreases es.len(),
{
    if es.len() > 0 {
        let init = es.drop_last();
        let x = es.last();
        lemma_sort_facts(init);
        let s = stable_sort(init);
        lemma_insert_pos(s, x);
        lemma_insert_sorted(s, x);
        let p = insert_pos(s, x);
        let r = s.insert(p, x);
        assert(stable_sort(es) == r);
        assert forall|k: int| 0 <= k < es.len() implies r.contains(#[trigger] es[k]) by {
            if k == es.len() - 1 {
                assert(r[p] == es[k]);
            } else {
                assert(init[k] == es[k]);
                assert(s.contains(init[k]));
                let i = choose|i: int| 0 <= i < s.len() && s[i] == init[k];
                if i < p {
                    assert(r[i] == es[k]);
                } else {
                    assert(r[i + 1] == es[k]);
                }
            }
        }
        assert forall|k: int| 0 <= k < r.len() implies es.contains(#[trigger] r[k]) by {
            if k == p {
                assert(es[es.len() - 1] == r[k]);
            } else {
                let i = if k < p { k } else { k - 1 };
                assert(r[k] == s[i]);
                assert(init.contains(s[i]));
                let m = choose|m: int| 0 <= m < init.len() && init[m] == s[i];
                assert(es[m] == init[m]);
            }
        }
    }
}

proof fn lemma_sort_sorted_is_identity(s: Seq<EntryV>)
    requires
        sorted_entries(s),
    ensures
        stable_sort(s) == s,
    decreases s.len(),
{
    if s.len() > 0 {
        let init = s.drop_last();
        assert forall|i: int, j: int| 0 <= i < j < init.len() implies !entry_gt(#[trigger] init[i], #[trigger] init[j]) by {
            assert(init[i] == s[i] && init[j] == s[j]);
        }
        lemma_sort_sorted_is_identity(init);
        if init.len() > 0 {
            assert(!entry_gt(s[init.len() - 1], s[s.len() - 1]));
            assert(init.last() == s[init.len() - 1]);
        }
        assert(insert_pos(init, s.last()) == init.len());
        assert(init.insert(init.len() as int, s.last()) =~= s);
    }
}

// ---------------------------------------------------------------------------
// Reading rendered entries back.

proof fn lemma_empty_line_blank()
    ensures
        blank(Seq::<char>::empty()),
        !comment_start(Seq::<char>::empty()),
        clean(Seq::<char>::empty()),
{
    assert(trim_end(Seq::<char>::empty()) == Seq::<char>::empty());
    assert(trim_start(Seq::<char>::empty()) == Seq::<char>::empty());
}

proof fn lemma_push_blank(ls: Seq<Seq<char>>, b: Seq<char>)
    requires
        blank(b),
    ensures
        entries_of(ls.push(b)) == entries_of(ls),
{
    assert(ls.push(b).drop_last() =~= ls);
}

proof fn lemma_push_comment(ls: Seq<Seq<char>>, c: Seq<char>)
    requires
        comment_line(c),
    ensures
        entries_of(ls.push(c)) == (entries_of(ls).0, entries_of(ls).1.push(c)),
{
    lemma_comment_start(c);
    assert(ls.push(c).drop_last() =~= ls);
}

proof fn lemma_push_comments(ls: Seq<Seq<char>>, cs: Seq<Seq<char>>)
    requires
        all_comments(cs),
    ensures
        entries_of(ls + cs) == (entries_of(ls).0, entries_of(ls).1 + cs),
    decreases cs.len(),
{
    if cs.len() == 0 {
        assert(ls + cs =~= ls);
        assert(entries_of(ls).1 + cs =~= entries_of(ls).1);
    } else {
        let init = cs.drop_last();
        assert forall|i: int| 0 <= i < init.len() implies comment_line(#[trigger] init[i]) by {
            assert(init[i] == cs[i]);
        }
        lemma_push_comments(ls, init);
        assert(comment_line(cs[cs.len() - 1]));
        lemma_push_comment(ls + init, cs.last());
        assert(ls + cs =~= (ls + init).push(cs.last()));
        assert(entries_of(ls).1 + cs =~= (entries_of(ls).1 + init).push(cs.last()));
    }
}

proof fn lemma_push_entry(ls: Seq<Seq<char>>, l: Seq<char>)
    requires
        !blank(l),
        !comment_line(l),
    ensures
        entries_of(ls.push(l)) == (
            entries_of(ls).0.push((entries_of(ls).1, l, entry_order(l).0, entry_order(l).1)),
            Seq::<Seq<char>>::empty(),
        ),
{
    assert(ls.push(l).drop_last() =~= ls);
}

/// Rendered entries, read back without a header, give the same entries.
#[verifier::spinoff_prover]
#[verifier::rlimit(40)]
proof fn lemma_entry_lines_parse(es: Seq<EntryV>)
    requires
        good_entries(es),
    ensures
        entries_of(entry_lines(es, false)) == (es, Seq::<Seq<char>>::empty()),
    decreases es.len(),
{
    if es.len() == 0 {
        assert(entries_of(entry_lines(es, false)).0 =~= es);
    } else {
        let init = es.drop_last();
        assert forall|i: int| 0 <= i < init.len() implies good_entry(#[trigger] init[i]) by {
            assert(init[i] == es[i]);
        }
        lemma_entry_lines_parse(init);
        let x = entry_lines(init, false);
        let e = es.last();
        assert(good_entry(es[es.len() - 1]));
        let i = es.len() - 1;
        let sep = if i == 0 {
            Seq::<Seq<char>>::empty()
        } else if es[i - 1].2 != es[i].2 {
            seq![Seq::<char>::empty()]
        } else {
            Seq::<Seq<char>>::empty()
        };
        assert(entry_lines(es, false) == x + sep + e.0 + seq![e.1]);
        assert(entries_of(x + sep) == entries_of(x)) by {
            if sep.len() > 0 {
                lemma_empty_line_blank();
                assert(x + sep =~= x.push(Seq::<char>::empty()));
                lemma_push_blank(x, Seq::<char>::empty());
            } else {
                assert(x + sep =~= x);
            }
        }
        lemma_push_comments(x + sep, e.0);
        assert(Seq::<Seq<char>>::empty() + e.0 =~= e.0);
        lemma_push_entry(x + sep + e.0, e.1);
        assert(x + sep + e.0 + seq![e.1] =~= (x + sep + e.0).push(e.1));
        assert(init.push(e) =~= es);
    }
}

/// With a header, the rendering starts with one blank line.
proof fn lemma_entry_lines_header(es: Seq<EntryV>)
    requires
        es.len() > 0,
    ensures
        entry_lines(es, true) == seq![Seq::<char>::empty()] + entry_lines(es, false),
    decreases es.len(),
{
    let init = es.drop_last();
    let i = es.len() - 1;
    if init.len() == 0 {
        assert(entry_lines(init, true) =~= Seq::<Seq<char>>::empty());
        assert(entry_lines(init, false) =~= Seq::<Seq<char>>::empty());
        assert(entry_lines(es, true) =~= seq![Seq::<char>::empty()] + entry_lines(es, false));
    } else {
        lemma_entry_lines_header(init);
        let sep = if es[i - 1].2 != es[i].2 {
            seq![Seq::<char>::empty()]
        } else {
            Seq::<Seq<char>>::empty()
        };
        assert(entry_lines(es, true) == entry_lines(init, true) + sep + es[i].0 + seq![es[i].1]);
        assert(entry_lines(es, false) == entry_lines(init, false) + sep + es[i].0 + seq![es[i].1]);
        assert(entry_lines(es, true) =~= seq![Seq::<char>::empty()] + entry_lines(es, false));
    }
}

proof fn lemma_entry_lines_clean(es: Seq<EntryV>, hd: bool)
    requires
        good_entries(es),
    ensures
        all_clean(entry_lines(es, hd)),
    decreases es.len(),
{
    if es.len() > 0 {
        let init = es.drop_last();
        assert forall|i: int| 0 <= i < init.len() implies good_entry(#[trigger] init[i]) by {
            assert(init[i] == es[i]);
        }
        lemma_entry_lines_clean(init, hd);
        lemma_empty_line_blank();
        assert(good_entry(es[es.len() - 1]));
        let out = entry_lines(es, hd);
        assert forall|k: int| 0 <= k < out.len() implies clean(#[trigger] out[k]) by {
            let x = entry_lines(init, hd);
            if k < x.len() {
                assert(out[k] == x[k]);
            }
        }
    }
}

/// The rendering opens with the first entry: a blank line after a header,
/// its comments, then its line.
proof fn lemma_entry_lines_prefix(es: Seq<EntryV>, hd: bool)
    requires
        es.len() > 0,
    ensures
        ({
            let p = (if hd { seq![Seq::<char>::empty()] } else { Seq::<Seq<char>>::empty() }) + es[0].0 + seq![es[0].1];
            entry_lines(es, hd).len() >= p.len() && entry_lines(es, hd).subrange(0, p.len() as int) == p
        }),
    decreases es.len(),
{
    let p = (if hd { seq![Seq::<char>::empty()] } else { Seq::<Seq<char>>::empty() }) + es[0].0 + seq![es[0].1];
    let init = es.drop_last();
    if init.len() == 0 {
        assert(entry_lines(init, hd) =~= Seq::<Seq<char>>::empty());
        assert(entry_lines(es, hd) =~= p);
    } else {
        lemma_entry_lines_prefix(init, hd);
        assert(init[0] == es[0]);
        let x = entry_lines(init, hd);
        let out = entry_lines(es, hd);
        assert(out.subrange(0, p.len() as int) =~= x.subrange(0, p.len() as int));
    }
}

// ---------------------------------------------------------------------------
// Header and first entry.

proof fn lemma_walk_back_to(ls: Seq<Seq<char>>, a: int, m: int)
    requires
        0 <= m <= a <= ls.len(),
        forall|j: int| m <= j < a ==> comment_start(#[trigger] ls[j]),
        m == 0 || !comment_start(ls[m - 1]),
    ensures
        walk_back(ls, a) == m,
    decreases a,
{
    if a > m {
        assert(comment_start(ls[a - 1]));
        lemma_walk_back_to(ls, a - 1, m);
    }
}

proof fn lemma_walk_back_bounds(ls: Seq<Seq<char>>, a: int)
    requires
        0 <= a <= ls.len(),
    ensures
        0 <= walk_back(ls, a) <= a,
    decreases a,
{
    if 0 < a && comment_start(ls[a - 1]) {
        lemma_walk_back_bounds(ls, a - 1);
    }
}

proof fn lemma_dtb_facts(x: Seq<Seq<char>>)
    ensures
        drop_trailing_blank(x).len() <= x.len(),
        drop_trailing_blank(x) == x.subrange(0, drop_trailing_blank(x).len() as int),
        drop_trailing_blank(x).len() == 0 || !blank(drop_trailing_blank(x).last()),
    decreases x.len(),
{
    if x.len() > 0 && blank(x.last()) {
        lemma_dtb_facts(x.drop_last());
        let d = drop_trailing_blank(x.drop_last());
        assert(x.drop_last().subrange(0, d.len() as int) =~= x.subrange(0, d.len() as int));
    } else {
        assert(x.subrange(0, x.len() as int) =~= x);
    }
}

proof fn lemma_first_pkg_unique(ls: Seq<Seq<char>>, i: int, j: int)
    requires
        first_pkg(ls, i),
        first_pkg(ls, j),
    ensures
        i == j,
{
    if i < j {
        assert(!is_pkg_line(ls[i]));
    } else if j < i {
        assert(!is_pkg_line(ls[j]));
    }
}

/// What a first sort leaves: a header free of packages and trailing blanks,
/// sorted entries led by a package, comments after them.
pub open spec fn sorted_parts(header: Seq<Seq<char>>, es: Seq<EntryV>, trailing: Seq<Seq<char>>) -> bool {
    &&& all_clean(header)
    &&& forall|j: int| 0 <= j < header.len() ==> !is_pkg_line(#[trigger] header[j])
    &&& (header.len() == 0 || !blank(header.last()))
    &&& good_entries(es)
    &&& sorted_entries(es)
    &&& es.len() > 0
    &&& is_pkg_line(es[0].1)
    &&& all_clean(trailing)
    &&& all_comments(trailing)
}

pub open spec fn assemble(header: Seq<Seq<char>>, es: Seq<EntryV>, trailing: Seq<Seq<char>>) -> Seq<Seq<char>> {
    let tail = if trailing.len() > 0 {
        seq![Seq::<char>::empty()] + trailing
    } else {
        Seq::empty()
    };
    header + entry_lines(es, header.len() > 0) + tail
}

pub open spec fn tail_of(trailing: Seq<Seq<char>>) -> Seq<Seq<char>> {
    if trailing.len() > 0 {
        seq![Seq::<char>::empty()] + trailing
    } else {
        Seq::empty()
    }
}

/// Where the entries begin: after the header and its blank line.
pub open spec fn body_start(header: Seq<Seq<char>>) -> int {
    if header.len() > 0 {
        header.len() + 1int
    } else {
        0
    }
}

proof fn lemma_assembled_clean(header: Seq<Seq<char>>, es: Seq<EntryV>, trailing: Seq<Seq<char>>)
    requires
        sorted_parts(header, es, trailing),
    ensures
        all_clean(assemble(header, es, trailing)),
{
    let body = entry_lines(es, header.len() > 0);
    let tail = tail_of(trailing);
    let out = assemble(header, es, trailing);
    assert(out == header + body + tail);
    lemma_empty_line_blank();
    lemma_entry_lines_clean(es, header.len() > 0);
    assert forall|k: int| 0 <= k < out.len() implies clean(#[trigger] out[k]) by {
        if k < header.len() {
            assert(out[k] == header[k]);
        } else if k < header.len() + body.len() {
            assert(out[k] == body[k - header.len()]);
        } else if k == header.len() + body.len() {
            assert(out[k] == tail[0]);
        } else {
            assert(out[k] == trailing[k - header.len() - body.len() - 1]);
        }
    }
}

/// The first package of the assembled lines is the first entry's line, and
/// the walk back over its comments stops where the entries begin.
proof fn lemma_assembled_first(header: Seq<Seq<char>>, es: Seq<EntryV>, trailing: Seq<Seq<char>>)
    requires
        sorted_parts(header, es, trailing),
    ensures
        first_pkg(assemble(header, es, trailing), body_start(header) + es[0].0.len()),
        walk_back(assemble(header, es, trailing), body_start(header) + es[0].0.len()) == body_start(header),
{
    let h = header.len() > 0;
    let body = entry_lines(es, h);
    let out = assemble(header, es, trailing);
    assert(out == header + body + tail_of(trailing));
    lemma_empty_line_blank();
    let hl: int = if h { 1 } else { 0 };
    let a2 = body_start(header);
    assert(a2 == header.len() + hl);
    let k0 = a2 + es[0].0.len();
    lemma_entry_lines_prefix(es, h);
    let p = (if h { seq![Seq::<char>::empty()] } else { Seq::<Seq<char>>::empty() }) + es[0].0 + seq![es[0].1];
    assert(body.subrange(0, p.len() as int) == p);
    assert(p.len() == hl + es[0].0.len() + 1);
    assert(good_entry(es[0]));
    assert forall|j: int| 0 <= j < es[0].0.len() implies out[a2 + j] == #[trigger] es[0].0[j] by {
        assert(out[a2 + j] == body[hl + j]);
        assert(body[hl + j] == p[hl + j]);
    }
    assert(out[k0] == es[0].1) by {
        assert(out[k0] == body[hl + es[0].0.len()]);
        assert(body[hl + es[0].0.len()] == p[hl + es[0].0.len()]);
    }
    if h {
        assert(out[header.len() as int] == Seq::<char>::empty()) by {
            assert(out[header.len() as int] == body[0]);
            assert(body[0] == p[0]);
        }
    }
    assert forall|j: int| 0 <= j < k0 implies !is_pkg_line(#[trigger] out[j]) by {
        if j < header.len() {
            assert(out[j] == header[j]);
        } else if j < a2 {
            lemma_blank_not_pkg(out[j]);
        } else {
            assert(out[j] == es[0].0[j - a2]);
            assert(comment_line(es[0].0[j - a2]));
            lemma_comment_not_pkg(es[0].0[j - a2]);
        }
    }
    assert forall|j: int| a2 <= j < k0 implies comment_start(#[trigger] out[j]) by {
        assert(out[j] == es[0].0[j - a2]);
        assert(comment_line(es[0].0[j - a2]));
        lemma_comment_start(es[0].0[j - a2]);
    }
    lemma_walk_back_to(out, k0, a2);
}

/// Above the entries lies the header.
proof fn lemma_assembled_header(header: Seq<Seq<char>>, es: Seq<EntryV>, trailing: Seq<Seq<char>>)
    requires
        sorted_parts(header, es, trailing),
    ensures
        drop_trailing_blank(assemble(header, es, trailing).subrange(0, body_start(header))) == header,
{
    let out = assemble(header, es, trailing);
    let pre = out.subrange(0, body_start(header));
    lemma_empty_line_blank();
    if header.len() > 0 {
        lemma_entry_lines_header(es);
        let body = entry_lines(es, true);
        assert(out == header + body + tail_of(trailing));
        assert(body[0] == Seq::<char>::empty());
        assert(pre =~= header.push(Seq::<char>::empty())) by {
            assert forall|k: int| 0 <= k < pre.len() implies pre[k] == #[trigger] header.push(Seq::<char>::empty())[k] by {
                if k < header.len() {
                    assert(out[k] == header[k]);
                } else {
                    assert(out[k] == body[0]);
                }
            }
        }
        assert(pre.drop_last() =~= header);
        assert(drop_trailing_blank(pre) == drop_trailing_blank(header));
    } else {
        assert(pre =~= Seq::<Seq<char>>::empty());
        assert(header =~= Seq::<Seq<char>>::empty());
    }
}

/// From the entries on, the same entries and trailing comments.
proof fn lemma_assembled_entries(header: Seq<Seq<char>>, es: Seq<EntryV>, trailing: Seq<Seq<char>>)
    requires
        sorted_parts(header, es, trailing),
    ensures
        entries_of(
            assemble(header, es, trailing).subrange(body_start(header), assemble(header, es, trailing).len() as int),
        ) == (es, trailing),
{
    let tail = tail_of(trailing);
    let out = assemble(header, es, trailing);
    let rest = out.subrange(body_start(header), out.len() as int);
    let plain = entry_lines(es, false);
    lemma_empty_line_blank();
    if header.len() > 0 {
        lemma_entry_lines_header(es);
        assert(out =~= header + (seq![Seq::<char>::empty()] + plain) + tail);
    } else {
        assert(out =~= header + plain + tail);
    }
    assert(rest =~= plain + tail);
    lemma_entry_lines_parse(es);
    if trailing.len() > 0 {
        lemma_push_blank(plain, Seq::<char>::empty());
        lemma_push_comments(plain.push(Seq::<char>::empty()), trailing);
        assert(plain + tail =~= plain.push(Seq::<char>::empty()) + trailing);
        assert(Seq::<Seq<char>>::empty() + trailing =~= trailing);
    } else {
        assert(plain + tail =~= plain);
    }
}

/// Sorting the assembled lines of sorted parts gives them back.
proof fn lemma_resort(header: Seq<Seq<char>>, es: Seq<EntryV>, trailing: Seq<Seq<char>>)
    requires
        sorted_parts(header, es, trailing),
    ensures
        sort_spec(join_nl(assemble(header, es, trailing))) == join_nl(assemble(header, es, trailing)),
{
    let out = assemble(header, es, trailing);
    lemma_assembled_clean(header, es, trailing);
    lemma_join_round_trip(out);
    lemma_assembled_first(header, es, trailing);
    lemma_assembled_header(header, es, trailing);
    lemma_assembled_entries(header, es, trailing);
    let k0 = body_start(header) + es[0].0.len();
    let first = choose|i: int| first_pkg(out, i);
    lemma_first_pkg_unique(out, first, k0);
    lemma_sort_sorted_is_identity(es);
    assert(tail_of(trailing) == (if trailing.len() > 0 {
        seq![Seq::<char>::empty()] + trailing
    } else {
        Seq::<Seq<char>>::empty()
    }));
}

/// No line ends in a carriage return once the line break is split off.
pub open spec fn no_cr_ends(ls: Seq<Seq<char>>) -> bool {
    forall|i: int| 0 <= i < ls.len() ==> !((#[trigger] ls[i]).len() > 0 && ls[i].last() == '\r')
}

/// A first sort leaves sorted parts.
proof fn lemma_sort_parts(c: Seq<char>, first: int)
    requires
        no_cr_ends(lines_of(c)),
        first_pkg(lines_of(c), first),
    ensures
        ({
            let ls = lines_of(c);
            let a = walk_back(ls, first);
            let header = drop_trailing_blank(ls.subrange(0, a));
            let (es, trailing) = entries_of(ls.subrange(a, ls.len() as int));
            sorted_parts(header, stable_sort(es), trailing)
        }),
{
    let ls = lines_of(c);
    crate::dconf_laws::lemma_lines_no_nl(c);
    assert forall|i: int| 0 <= i < ls.len() implies clean(#[trigger] ls[i]) by {
        assert(no_nl(ls[i]));
    }
    lemma_walk_back_bounds(ls, first);
    let a = walk_back(ls, first);
    let pre = ls.subrange(0, a);
    let header = drop_trailing_blank(pre);
    lemma_dtb_facts(pre);
    assert forall|j: int| 0 <= j < header.len() implies clean(#[trigger] header[j]) && !is_pkg_line(header[j]) by {
        assert(header[j] == pre[j]);
        assert(pre[j] == ls[j]);
    }
    let rest = ls.subrange(a, ls.len() as int);
    assert forall|i: int| 0 <= i < rest.len() implies clean(#[trigger] rest[i]) by {
        assert(rest[i] == ls[a + i]);
    }
    lemma_entries_good(rest);
    let (es, trailing) = entries_of(rest);
    let sorted = stable_sort(es);
    lemma_sort_facts(es);
    assert forall|k: int| 0 <= k < sorted.len() implies good_entry(#[trigger] sorted[k]) by {
        assert(es.contains(sorted[k]));
        let m = choose|m: int| 0 <= m < es.len() && es[m] == sorted[k];
        assert(good_entry(es[m]));
    }
    // The first package line became an entry, and sorts ahead of every line
    // that does not parse.
    lemma_pkg_is_entry(ls[first]);
    assert(rest[first - a] == ls[first]);
    lemma_line_becomes_entry(rest, first - a);
    let j = choose|j: int| 0 <= j < es.len() && (#[trigger] es[j]).1 == ls[first];
    assert(good_entry(es[j]));
    assert(es[j].2 <= 5);
    assert(sorted.contains(es[j]));
    let q = choose|q: int| 0 <= q < sorted.len() && sorted[q] == es[j];
    if q > 0 {
        assert(!entry_gt(sorted[0], sorted[q]));
    }
    assert(good_entry(sorted[0]));
    assert(sorted[0].2 <= 5);
    assert(is_pkg_line(sorted[0].1));
}

/// Sorting a sorted Brewfile changes nothing: the sort is idempotent on
/// every content whose lines do not end in a stray carriage return.
pub proof fn law_sorting_is_idempotent(c: Seq<char>)
    requires
        no_cr_ends(lines_of(c)),
    ensures
        sort_spec(sort_spec(c)) == sort_spec(c),
{
    let ls = lines_of(c);
    if exists|i: int| first_pkg(ls, i) {
        let first = choose|i: int| first_pkg(ls, i);
        lemma_sort_parts(c, first);
        let a = walk_back(ls, first);
        let header = drop_trailing_blank(ls.subrange(0, a));
        let (es, trailing) = entries_of(ls.subrange(a, ls.len() as int));
        assert(sort_spec(c) == join_nl(assemble(header, stable_sort(es), trailing)));
        lemma_resort(header, stable_sort(es), trailing);
    }
}

// ---------------------------------------------------------------------------
// A plan's candidates.

/// The lists a plan document carries, one key each.
pub open spec fn declared_lists() -> Seq<Seq<char>> {
    seq![
        "adds"@,
        "drops"@,
        "trust_adds"@,
        "trust_drops"@,
        "gext_adds"@,
        "gext_drops"@,
        "package_drops"@,
        "remote_adds"@,
        "remote_drops"@,
        "rpm_adds"@,
        "rpm_drops"@,
    ]
}

/// The lists whose candidates add to the spec.
pub open spec fn adding_lists() -> Seq<Seq<char>> {
    seq!["adds"@, "trust_adds"@, "gext_adds"@, "remote_adds"@, "rpm_adds"@]
}

/// How many keys a set of dconf plans offers.
pub open spec fn dconf_key_count(ds: Seq<DconfPlan>) -> nat
    decreases ds.len(),
{
    if ds.len() == 0 {
        0
    } else {
        dconf_key_count(ds.drop_last()) + section_key_count(ds.last().sections@)
    }
}

pub open spec fn section_key_count(ss: Seq<(String, Vec<crate::dconf::KeyDiff>)>) -> nat
    decreases ss.len(),
{
    if ss.len() == 0 {
        0
    } else {
        section_key_count(ss.drop_last()) + ss.last().1@.len()
    }
}

/// How many candidates a plan carries: every list's length, and every
/// offered dconf key.
pub open spec fn plan_count(p: ReconcilePlan) -> nat {
    p.adds@.len() + p.drops@.len() + p.trust_adds@.len() + p.trust_drops@.len() + p.gext_adds@.len()
        + p.gext_drops@.len() + p.package_drops@.len() + p.remote_adds@.len() + p.remote_drops@.len()
        + p.rpm_adds@.len() + p.rpm_drops@.len() + dconf_key_count(p.dconf@)
}

/// A candidate names a declared list (or is a dconf key), and it adds to the
/// spec exactly when its list is an adding one.
pub open spec fn well_listed(it: ItemV) -> bool {
    ||| it.0 == "dconf"@
    ||| declared_lists().contains(it.0) && (it.1 <==> adding_lists().contains(it.0))
}

pub open spec fn all_listed(s: Seq<ItemV>) -> bool {
    forall|j: int| 0 <= j < s.len() ==> well_listed(#[trigger] s[j])
}

proof fn lemma_listed_concat(a: Seq<ItemV>, b: Seq<ItemV>)
    requires
        all_listed(a),
        all_listed(b),
    ensures
        all_listed(a + b),
{
    assert forall|j: int| 0 <= j < (a + b).len() implies well_listed(#[trigger] (a + b)[j]) by {
        if j < a.len() {
            assert((a + b)[j] == a[j]);
        } else {
            assert((a + b)[j] == b[j - a.len()]);
        }
    }
}

proof fn lemma_tagged_listed(list: Seq<char>, adding: bool, xs: Seq<Seq<char>>)
    requires
        declared_lists().contains(list),
        adding <==> adding_lists().contains(list),
    ensures
        all_listed(tagged(list, adding, xs)),
        tagged(list, adding, xs).len() == xs.len(),
{
    assert forall|j: int| 0 <= j < tagged(list, adding, xs).len() implies well_listed(#[trigger] tagged(list, adding, xs)[j]) by {
        assert(tagged(list, adding, xs)[j] == (list, adding, xs[j]));
    }
}

proof fn lemma_dconf_listed(ds: Seq<DconfPlan>)
    ensures
        all_listed(dconf_items(ds)),
        dconf_items(ds).len() == dconf_key_count(ds),
    decreases ds.len(),
{
    if ds.len() > 0 {
        lemma_dconf_listed(ds.drop_last());
        lemma_sections_listed(ds.last().name@, ds.last().sections@);
        lemma_listed_concat(dconf_items(ds.drop_last()), sections_items(ds.last().name@, ds.last().sections@));
    }
}

proof fn lemma_sections_listed(name: Seq<char>, ss: Seq<(String, Vec<crate::dconf::KeyDiff>)>)
    ensures
        all_listed(sections_items(name, ss)),
        sections_items(name, ss).len() == section_key_count(ss),
    decreases ss.len(),
{
    if ss.len() > 0 {
        lemma_sections_listed(name, ss.drop_last());
        let part = section_items(name, ss.last().0@, ss.last().1@);
        assert forall|j: int| 0 <= j < part.len() implies well_listed(#[trigger] part[j]) by {
            assert(part[j].0 == "dconf"@);
        }
        lemma_listed_concat(sections_items(name, ss.drop_last()), part);
    }
}

/// Two literals that differ at some position differ.
proof fn lemma_differ_at(s: Seq<char>, t: Seq<char>, k: int)
    requires
        0 <= k < s.len(),
        k < t.len(),
        s[k] != t[k],
    ensures
        s != t,
{
}

/// Which lists add, decided name by name.
proof fn lemma_list_names()
    ensures
        forall|i: int| 0 <= i < declared_lists().len() ==> declared_lists().contains(#[trigger] declared_lists()[i]),
        adding_lists().contains("adds"@),
        adding_lists().contains("trust_adds"@),
        adding_lists().contains("gext_adds"@),
        adding_lists().contains("remote_adds"@),
        adding_lists().contains("rpm_adds"@),
        !adding_lists().contains("drops"@),
        !adding_lists().contains("trust_drops"@),
        !adding_lists().contains("gext_drops"@),
        !adding_lists().contains("package_drops"@),
        !adding_lists().contains("remote_drops"@),
        !adding_lists().contains("rpm_drops"@),
{
    let a = adding_lists();
    assert(a[0] == "adds"@ && a[1] == "trust_adds"@ && a[2] == "gext_adds"@ && a[3] == "remote_adds"@ && a[4] == "rpm_adds"@);
    reveal_strlit("adds");
    reveal_strlit("trust_adds");
    reveal_strlit("gext_adds");
    reveal_strlit("remote_adds");
    reveal_strlit("rpm_adds");
    reveal_strlit("drops");
    reveal_strlit("trust_drops");
    reveal_strlit("gext_drops");
    reveal_strlit("package_drops");
    reveal_strlit("remote_drops");
    reveal_strlit("rpm_drops");
    // Each dropping list differs from each adding one at its first character
    // or just after a shared prefix.
    assert forall|i: int| 0 <= i < a.len() implies a[i] != "drops"@ by {
        lemma_differ_at(a[i], "drops"@, 0);
    }
    assert forall|i: int| 0 <= i < a.len() implies a[i] != "package_drops"@ by {
        lemma_differ_at(a[i], "package_drops"@, 0);
    }
    assert forall|i: int| 0 <= i < a.len() implies a[i] != "trust_drops"@ by {
        if i == 1 {
            lemma_differ_at(a[i], "trust_drops"@, 6);
        } else {
            lemma_differ_at(a[i], "trust_drops"@, 0);
        }
    }
    assert forall|i: int| 0 <= i < a.len() implies a[i] != "gext_drops"@ by {
        if i == 2 {
            lemma_differ_at(a[i], "gext_drops"@, 5);
        } else {
            lemma_differ_at(a[i], "gext_drops"@, 0);
        }
    }
    assert forall|i: int| 0 <= i < a.len() implies a[i] != "remote_drops"@ by {
        if i == 3 {
            lemma_differ_at(a[i], "remote_drops"@, 7);
        } else if i == 4 {
            lemma_differ_at(a[i], "remote_drops"@, 1);
        } else {
            lemma_differ_at(a[i], "remote_drops"@, 0);
        }
    }
    assert forall|i: int| 0 <= i < a.len() implies a[i] != "rpm_drops"@ by {
        if i == 4 {
            lemma_differ_at(a[i], "rpm_drops"@, 4);
        } else if i == 3 {
            lemma_differ_at(a[i], "rpm_drops"@, 1);
        } else {
            lemma_differ_at(a[i], "rpm_drops"@, 0);
        }
    }
    assert forall|i: int| 0 <= i < declared_lists().len() implies declared_lists().contains(#[trigger] declared_lists()[i]) by {
    }
}

/// A plan's candidates, taken together: one per entry of every list and per
/// offered dconf key, each naming a declared list (or `dconf`), and adding to
/// the spec exactly when its list is an adding one.
pub proof fn law_items_cover_the_declared_lists(p: ReconcilePlan)
    ensures
        items_spec(p).len() == plan_count(p),
        all_listed(items_spec(p)),
{
    lemma_list_names();
    let d = declared_lists();
    assert(d[0] == "adds"@ && d[1] == "drops"@ && d[2] == "trust_adds"@ && d[3] == "trust_drops"@);
    assert(d[4] == "gext_adds"@ && d[5] == "gext_drops"@ && d[6] == "package_drops"@ && d[7] == "remote_adds"@);
    assert(d[8] == "remote_drops"@ && d[9] == "rpm_adds"@ && d[10] == "rpm_drops"@);
    let s0 = tagged("adds"@, true, crate::reconcile::add_tokens(p.adds@));
    let s1 = tagged("drops"@, false, str_views(p.drops@));
    let s2 = tagged("trust_adds"@, true, str_views(p.trust_adds@));
    let s3 = tagged("trust_drops"@, false, str_views(p.trust_drops@));
    let s4 = tagged("gext_adds"@, true, str_views(p.gext_adds@));
    let s5 = tagged("gext_drops"@, false, str_views(p.gext_drops@));
    let s6 = tagged("package_drops"@, false, str_views(p.package_drops@));
    let s7 = tagged("remote_adds"@, true, str_views(p.remote_adds@));
    let s8 = tagged("remote_drops"@, false, str_views(p.remote_drops@));
    let s9 = tagged("rpm_adds"@, true, str_views(p.rpm_adds@));
    let s10 = tagged("rpm_drops"@, false, str_views(p.rpm_drops@));
    lemma_tagged_listed("adds"@, true, crate::reconcile::add_tokens(p.adds@));
    lemma_tagged_listed("drops"@, false, str_views(p.drops@));
    lemma_tagged_listed("trust_adds"@, true, str_views(p.trust_adds@));
    lemma_tagged_listed("trust_drops"@, false, str_views(p.trust_drops@));
    lemma_tagged_listed("gext_adds"@, true, str_views(p.gext_adds@));
    lemma_tagged_listed("gext_drops"@, false, str_views(p.gext_drops@));
    lemma_tagged_listed("package_drops"@, false, str_views(p.package_drops@));
    lemma_tagged_listed("remote_adds"@, true, str_views(p.remote_adds@));
    lemma_tagged_listed("remote_drops"@, false, str_views(p.remote_drops@));
    lemma_tagged_listed("rpm_adds"@, true, str_views(p.rpm_adds@));
    lemma_tagged_listed("rpm_drops"@, false, str_views(p.rpm_drops@));
    lemma_dconf_listed(p.dconf@);
    lemma_listed_concat(s0, s1);
    lemma_listed_concat(s0 + s1, s2);
    lemma_listed_concat(s0 + s1 + s2, s3);
    lemma_listed_concat(s0 + s1 + s2 + s3, s4);
    lemma_listed_concat(s0 + s1 + s2 + s3 + s4, s5);
    lemma_listed_concat(s0 + s1 + s2 + s3 + s4 + s5, s6);
    lemma_listed_concat(s0 + s1 + s2 + s3 + s4 + s5 + s6, s7);
    lemma_listed_concat(s0 + s1 + s2 + s3 + s4 + s5 + s6 + s7, s8);
    lemma_listed_concat(s0 + s1 + s2 + s3 + s4 + s5 + s6 + s7 + s8, s9);
    lemma_listed_concat(s0 + s1 + s2 + s3 + s4 + s5 + s6 + s7 + s8 + s9, s10);
    lemma_listed_concat(s0 + s1 + s2 + s3 + s4 + s5 + s6 + s7 + s8 + s9 + s10, dconf_items(p.dconf@));
}

// ---------------------------------------------------------------------------
// Tokens read back.

/// A token written for a package reads back as that package: its manager,
/// its name, no id, and the token itself as the raw line. (A `mas` entry
/// needs an id, and a name holding a quote cannot be quoted, so both are
/// left out.)
pub proof fn law_token_reads_back(m: Manager, name: Seq<char>)
    requires
        m != Manager::Mas,
        !crate::text::has_char(name, '"'),
    ensures
        crate::packages::parse_spec(crate::reconcile::token_spec(m, name)) == Ok::<crate::packages::PkgV, crate::packages::PkgError>(
            (m, name, None, crate::reconcile::token_spec(m, name)),
        ),
{
    let ms = manager_str(m);
    let t = crate::reconcile::token_spec(m, name);
    let k = ms.len() as int;
    assert(t.len() == k + name.len() + 3);
    assert(t[0] == ms[0]);
    assert(!is_ws(ms[0]));
    assert(t[t.len() - 1] == '"');
    assert(trim_end(t) == t);
    assert(trim_start(t) == t);
    assert(trim(t) == t);
    assert(t[k] == ' ');
    assert forall|j: int| 0 <= j < k implies !is_ws(#[trigger] t[j]) by {
        assert(t[j] == ms[j]);
    }
    assert(is_first_ws(t, k));
    assert(has_ws(t));
    let w = first_ws(t);
    assert(is_first_ws(t, w));
    if w < k {
        assert(!is_ws(t[w]));
    } else if w > k {
        assert(is_ws(t[k]));
    }
    assert(t.subrange(0, k) =~= ms);
    let rest = t.subrange(k + 1, t.len() as int);
    assert(rest =~= seq!['"'] + name + seq!['"']);
    assert(crate::text::is_first(rest, '"', 0));
    crate::text::lemma_first_unique(rest, '"', 0);
    assert(crate::text::has_char(rest, '"'));
    let r2 = crate::text::after(rest, '"');
    assert(r2 =~= name + seq!['"']);
    assert forall|j: int| 0 <= j < name.len() implies r2[j] != '"' by {
        assert(r2[j] == name[j]);
        if name[j] == '"' {
            assert(crate::text::has_char(name, '"'));
        }
    }
    assert(crate::text::is_first(r2, '"', name.len() as int));
    crate::text::lemma_first_unique(r2, '"', name.len() as int);
    assert(crate::text::has_char(r2, '"'));
    assert(crate::text::before(r2, '"') =~= name);
    assert(crate::packages::manager_of(ms) == Some(m)) by {
        assert(manager_str(Manager::Brew) != manager_str(Manager::Cask));
        match m {
            Manager::Brew => {},
            Manager::Cask => {
                assert(ms[0] != manager_str(Manager::Brew)[0]);
            },
            Manager::Tap => {
                assert(ms.len() != manager_str(Manager::Brew).len());
                assert(ms[0] != manager_str(Manager::Cask)[0]);
            },
            Manager::Flatpak => {
                assert(ms.len() != manager_str(Manager::Brew).len());
                assert(ms.len() != manager_str(Manager::Cask).len());
                assert(ms.len() != manager_str(Manager::Tap).len());
            },
            Manager::Vscode => {
                assert(ms.len() != manager_str(Manager::Brew).len());
                assert(ms.len() != manager_str(Manager::Cask).len());
                assert(ms.len() != manager_str(Manager::Tap).len());
                assert(ms.len() != manager_str(Manager::Flatpak).len());
            },
            Manager::Mas => {},
        }
    }
}

// ---------------------------------------------------------------------------
// Sorting keeps every line that says something.

/// The lines that are not blank, in order.
pub open spec fn nonblank(ls: Seq<Seq<char>>) -> Seq<Seq<char>>
    decreases ls.len(),
{
    if ls.len() == 0 {
        Seq::empty()
    } else if blank(ls.last()) {
        nonblank(ls.drop_last())
    } else {
        nonblank(ls.drop_last()).push(ls.last())
    }
}

/// Entries written out: each one's comments, then its line.
pub open spec fn flat(es: Seq<EntryV>) -> Seq<Seq<char>>
    decreases es.len(),
{
    if es.len() == 0 {
        Seq::empty()
    } else {
        flat(es.drop_last()) + es.last().0 + seq![es.last().1]
    }
}

proof fn lemma_nonblank_concat(a: Seq<Seq<char>>, b: Seq<Seq<char>>)
    ensures
        nonblank(a + b) == nonblank(a) + nonblank(b),
    decreases b.len(),
{
    if b.len() == 0 {
        assert(a + b =~= a);
        assert(nonblank(a) + nonblank(b) =~= nonblank(a));
    } else {
        lemma_nonblank_concat(a, b.drop_last());
        assert((a + b).drop_last() =~= a + b.drop_last());
        assert((a + b).last() == b.last());
        if !blank(b.last()) {
            assert(nonblank(a) + nonblank(b.drop_last()).push(b.last()) =~= (nonblank(a) + nonblank(b.drop_last())).push(b.last()));
        }
    }
}

proof fn lemma_nonblank_one(x: Seq<char>)
    ensures
        nonblank(seq![x]) == (if blank(x) { Seq::<Seq<char>>::empty() } else { seq![x] }),
{
    assert(seq![x].drop_last() =~= Seq::<Seq<char>>::empty());
    assert(nonblank(Seq::<Seq<char>>::empty()) == Seq::<Seq<char>>::empty());
    assert(seq![x].last() == x);
    if !blank(x) {
        assert(Seq::<Seq<char>>::empty().push(x) =~= seq![x]);
    }
}

proof fn lemma_nonblank_all(ls: Seq<Seq<char>>)
    requires
        forall|i: int| 0 <= i < ls.len() ==> !blank(#[trigger] ls[i]),
    ensures
        nonblank(ls) == ls,
    decreases ls.len(),
{
    if ls.len() > 0 {
        assert forall|i: int| 0 <= i < ls.drop_last().len() implies !blank(#[trigger] ls.drop_last()[i]) by {
            assert(ls.drop_last()[i] == ls[i]);
        }
        lemma_nonblank_all(ls.drop_last());
        assert(!blank(ls[ls.len() - 1]));
        assert(ls.drop_last().push(ls.last()) =~= ls);
    }
}

proof fn lemma_nonblank_dtb(x: Seq<Seq<char>>)
    ensures
        nonblank(drop_trailing_blank(x)) == nonblank(x),
    decreases x.len(),
{
    if x.len() > 0 && blank(x.last()) {
        lemma_nonblank_dtb(x.drop_last());
    }
}

proof fn lemma_flat_concat(a: Seq<EntryV>, b: Seq<EntryV>)
    ensures
        flat(a + b) == flat(a) + flat(b),
    decreases b.len(),
{
    if b.len() == 0 {
        assert(a + b =~= a);
        assert(flat(a) + flat(b) =~= flat(a));
    } else {
        lemma_flat_concat(a, b.drop_last());
        assert((a + b).drop_last() =~= a + b.drop_last());
        assert((a + b).last() == b.last());
        assert(flat(a) + (flat(b.drop_last()) + b.last().0 + seq![b.last().1]) =~= flat(a) + flat(b.drop_last()) + b.last().0
            + seq![b.last().1]);
    }
}

/// Reading lines into entries keeps every line that is not blank: the
/// entries' lines, then the comments left after the last one.
proof fn lemma_entries_nonblank(ls: Seq<Seq<char>>)
    ensures
        nonblank(ls) == flat(entries_of(ls).0) + entries_of(ls).1,
    decreases ls.len(),
{
    if ls.len() == 0 {
        assert(flat(Seq::<EntryV>::empty()) + Seq::<Seq<char>>::empty() =~= Seq::<Seq<char>>::empty());
    } else {
        let pre = ls.drop_last();
        lemma_entries_nonblank(pre);
        let (es, p) = entries_of(pre);
        let l = ls.last();
        if blank(l) {
        } else if comment_line(l) {
            assert((flat(es) + p).push(l) =~= flat(es) + p.push(l));
        } else {
            let e: EntryV = (p, l, entry_order(l).0, entry_order(l).1);
            assert(es.push(e).drop_last() =~= es);
            assert((flat(es) + p).push(l) =~= flat(es.push(e)) + Seq::<Seq<char>>::empty());
        }
    }
}

/// Rendering entries adds only blank lines.
proof fn lemma_rendered_nonblank(es: Seq<EntryV>, h: bool)
    requires
        good_entries(es),
    ensures
        nonblank(entry_lines(es, h)) == flat(es),
    decreases es.len(),
{
    if es.len() > 0 {
        let init = es.drop_last();
        assert forall|i: int| 0 <= i < init.len() implies good_entry(#[trigger] init[i]) by {
            assert(init[i] == es[i]);
        }
        lemma_rendered_nonblank(init, h);
        let e = es.last();
        assert(good_entry(es[es.len() - 1]));
        let i = es.len() - 1;
        let sep = if i == 0 {
            if h {
                seq![Seq::<char>::empty()]
            } else {
                Seq::<Seq<char>>::empty()
            }
        } else if es[i - 1].2 != es[i].2 {
            seq![Seq::<char>::empty()]
        } else {
            Seq::<Seq<char>>::empty()
        };
        let x = entry_lines(init, h);
        assert(entry_lines(es, h) == x + sep + e.0 + seq![e.1]);
        lemma_empty_line_blank();
        lemma_nonblank_concat(x, sep);
        assert(nonblank(sep) =~= Seq::<Seq<char>>::empty()) by {
            lemma_nonblank_one(Seq::<char>::empty());
            if sep.len() == 0 {
                assert(nonblank(sep) == Seq::<Seq<char>>::empty());
            }
        }
        lemma_nonblank_concat(x + sep, e.0);
        assert forall|j: int| 0 <= j < e.0.len() implies !blank(#[trigger] e.0[j]) by {
            lemma_comment_start(e.0[j]);
        }
        lemma_nonblank_all(e.0);
        lemma_nonblank_concat(x + sep + e.0, seq![e.1]);
        lemma_nonblank_one(e.1);
        assert(x + sep =~= x + sep);
        assert(nonblank(x) + Seq::<Seq<char>>::empty() =~= nonblank(x));
    }
}

/// Inserting an entry adds its lines to the multiset.
proof fn lemma_flat_insert(s: Seq<EntryV>, p: int, x: EntryV)
    requires
        0 <= p <= s.len(),
    ensures
        flat(s.insert(p, x)).to_multiset() == flat(s).to_multiset().add((x.0 + seq![x.1]).to_multiset()),
{
    let a = s.subrange(0, p);
    let b = s.subrange(p, s.len() as int);
    assert(s =~= a + b);
    assert(s.insert(p, x) =~= a + seq![x] + b);
    lemma_flat_concat(a, b);
    lemma_flat_concat(a + seq![x], b);
    lemma_flat_concat(a, seq![x]);
    assert(seq![x].drop_last() =~= Seq::<EntryV>::empty());
    let fx = x.0 + seq![x.1];
    assert(flat(seq![x]) =~= fx) by {
        assert(flat(Seq::<EntryV>::empty()) == Seq::<Seq<char>>::empty());
        assert(Seq::<Seq<char>>::empty() + x.0 + seq![x.1] =~= fx);
    }
    vstd::seq_lib::lemma_multiset_commutative(flat(a) + fx, flat(b));
    vstd::seq_lib::lemma_multiset_commutative(flat(a), fx);
    vstd::seq_lib::lemma_multiset_commutative(flat(a), flat(b));
    assert(flat(s.insert(p, x)).to_multiset() =~= flat(s).to_multiset().add(fx.to_multiset()));
}

/// The stable sort keeps the entries' lines as a multiset.
proof fn lemma_sort_keeps_lines(es: Seq<EntryV>)
    ensures
        flat(stable_sort(es)).to_multiset() == flat(es).to_multiset(),
    decreases es.len(),
{
    if es.len() > 0 {
        let init = es.drop_last();
        let x = es.last();
        lemma_sort_keeps_lines(init);
        let s = stable_sort(init);
        lemma_insert_pos(s, x);
        lemma_flat_insert(s, insert_pos(s, x), x);
        let fx = x.0 + seq![x.1];
        assert(flat(es) == flat(init) + fx) by {
            assert(flat(init) + x.0 + seq![x.1] =~= flat(init) + fx);
        }
        vstd::seq_lib::lemma_multiset_commutative(flat(init), fx);
    }
}

/// The lines a first sort leaves, less the blank ones.
proof fn lemma_sorted_nonblank(header: Seq<Seq<char>>, es: Seq<EntryV>, trailing: Seq<Seq<char>>)
    requires
        sorted_parts(header, es, trailing),
    ensures
        nonblank(assemble(header, es, trailing)) == nonblank(header) + flat(es) + trailing,
{
    let h = header.len() > 0;
    let body = entry_lines(es, h);
    let tail = tail_of(trailing);
    let out = assemble(header, es, trailing);
    assert(out == header + body + tail);
    lemma_nonblank_concat(header + body, tail);
    lemma_nonblank_concat(header, body);
    lemma_rendered_nonblank(es, h);
    lemma_empty_line_blank();
    assert forall|j: int| 0 <= j < trailing.len() implies !blank(#[trigger] trailing[j]) by {
        lemma_comment_start(trailing[j]);
    }
    lemma_nonblank_all(trailing);
    if trailing.len() > 0 {
        lemma_nonblank_concat(seq![Seq::<char>::empty()], trailing);
        lemma_nonblank_one(Seq::<char>::empty());
        assert(Seq::<Seq<char>>::empty() + trailing =~= trailing);
    } else {
        assert(tail =~= Seq::<Seq<char>>::empty());
        assert(trailing =~= Seq::<Seq<char>>::empty());
        assert(nonblank(tail) == Seq::<Seq<char>>::empty());
    }
}

/// Sorting a Brewfile keeps every line that is not blank, each as often as
/// it was there: only their order and the blank lines change (on every
/// content whose lines do not end in a stray carriage return).
pub proof fn law_sorting_keeps_every_line(c: Seq<char>)
    requires
        no_cr_ends(lines_of(c)),
    ensures
        nonblank(lines_of(sort_spec(c))).to_multiset() == nonblank(lines_of(c)).to_multiset(),
{
    let ls = lines_of(c);
    if exists|i: int| first_pkg(ls, i) {
        let first = choose|i: int| first_pkg(ls, i);
        lemma_sort_parts(c, first);
        lemma_walk_back_bounds(ls, first);
        let a = walk_back(ls, first);
        let pre = ls.subrange(0, a);
        let header = drop_trailing_blank(pre);
        let rest = ls.subrange(a, ls.len() as int);
        let (es, trailing) = entries_of(rest);
        let sorted = stable_sort(es);
        let out = assemble(header, sorted, trailing);
        assert(sort_spec(c) == join_nl(out));
        lemma_assembled_clean(header, sorted, trailing);
        lemma_join_round_trip(out);
        lemma_sorted_nonblank(header, sorted, trailing);
        lemma_nonblank_dtb(pre);
        assert(ls =~= pre + rest);
        lemma_nonblank_concat(pre, rest);
        lemma_entries_nonblank(rest);
        lemma_sort_keeps_lines(es);
        let np = nonblank(pre);
        vstd::seq_lib::lemma_multiset_commutative(np + flat(sorted), trailing);
        vstd::seq_lib::lemma_multiset_commutative(np, flat(sorted));
        vstd::seq_lib::lemma_multiset_commutative(np + flat(es), trailing);
        vstd::seq_lib::lemma_multiset_commutative(np, flat(es));
        assert(np + (flat(es) + trailing) =~= np + flat(es) + trailing);
    }
}

proof fn lemma_entry_with_comment(ls: Seq<Seq<char>>, q: int)
    requires
        0 < q < ls.len(),
        comment_line(ls[q - 1]),
        !blank(ls[q]),
        !comment_line(ls[q]),
    ensures
        exists|k: int|
            0 <= k < entries_of(ls).0.len() && (#[trigger] entries_of(ls).0[k]).1 == ls[q] && entries_of(ls).0[k].0.len()
                > 0 && entries_of(ls).0[k].0.last() == ls[q - 1],
    decreases ls.len(),
{
    let pre = ls.drop_last();
    let (es0, pend0) = entries_of(pre);
    if q == ls.len() - 1 {
        assert(pre.last() == ls[q - 1]);
        lemma_comment_start(ls[q - 1]);
        let pp = pre.drop_last();
        assert(entries_of(pre).1 == entries_of(pp).1.push(pre.last()));
        let k = es0.len() as int;
        assert(entries_of(ls).0 == es0.push((pend0, ls[q], entry_order(ls[q]).0, entry_order(ls[q]).1)));
        assert(entries_of(ls).0[k].1 == ls[q]);
    } else {
        assert(pre[q] == ls[q]);
        assert(pre[q - 1] == ls[q - 1]);
        lemma_entry_with_comment(pre, q);
        let k = choose|k: int|
            0 <= k < es0.len() && (#[trigger] es0[k]).1 == pre[q] && es0[k].0.len() > 0 && es0[k].0.last() == pre[q - 1];
        let l = ls.last();
        if blank(l) || comment_line(l) {
            assert(entries_of(ls).0 == es0);
        } else {
            assert(entries_of(ls).0 == es0.push((pend0, l, entry_order(l).0, entry_order(l).1)));
        }
        assert(entries_of(ls).0[k] == es0[k]);
    }
}

proof fn lemma_entry_block(ss: Seq<EntryV>, h: bool, m: int)
    requires
        0 <= m < ss.len(),
        ss[m].0.len() > 0,
    ensures
        exists|p: int|
            0 <= p && p + 1 < entry_lines(ss, h).len() && #[trigger] entry_lines(ss, h)[p] == ss[m].0.last() && entry_lines(ss, h)[p
                + 1] == ss[m].1,
    decreases ss.len(),
{
    let i = ss.len() - 1;
    let pre = ss.drop_last();
    let pl = entry_lines(pre, h);
    let sep = if i == 0 {
        if h {
            seq![Seq::<char>::empty()]
        } else {
            Seq::<Seq<char>>::empty()
        }
    } else if ss[i - 1].2 != ss[i].2 {
        seq![Seq::<char>::empty()]
    } else {
        Seq::<Seq<char>>::empty()
    };
    let el = entry_lines(ss, h);
    assert(el == pl + sep + ss[i].0 + seq![ss[i].1]);
    if m == i {
        let p = pl.len() + sep.len() + ss[i].0.len() - 1;
        assert(el[p] == ss[i].0[ss[i].0.len() - 1]);
        assert(el[p + 1] == ss[i].1);
    } else {
        assert(pre[m] == ss[m]);
        lemma_entry_block(pre, h, m);
        let p = choose|p: int| 0 <= p && p + 1 < pl.len() && #[trigger] pl[p] == pre[m].0.last() && pl[p + 1] == pre[m].1;
        assert(el[p] == pl[p]);
        assert(el[p + 1] == pl[p + 1]);
    }
}

proof fn lemma_has_first_pkg(ls: Seq<Seq<char>>, q: int)
    requires
        0 <= q < ls.len(),
        is_pkg_line(ls[q]),
    ensures
        exists|f: int| first_pkg(ls, f),
    decreases q,
{
    if exists|j: int| 0 <= j < q && is_pkg_line(ls[j]) {
        let j = choose|j: int| 0 <= j < q && is_pkg_line(ls[j]);
        lemma_has_first_pkg(ls, j);
    } else {
        assert(first_pkg(ls, q));
    }
}

/// A comment line directly above a package entry stays directly above it
/// after sorting (on content whose lines do not end in a stray carriage
/// return, as for idempotence).
pub proof fn law_sorting_keeps_comments_above_their_entry(c: Seq<char>, q: int)
    requires
        no_cr_ends(lines_of(c)),
        0 < q < lines_of(c).len(),
        comment_line(lines_of(c)[q - 1]),
        is_pkg_line(lines_of(c)[q]),
    ensures
        exists|p: int|
            0 <= p && p + 1 < lines_of(sort_spec(c)).len() && #[trigger] lines_of(sort_spec(c))[p] == lines_of(c)[q - 1]
                && lines_of(sort_spec(c))[p + 1] == lines_of(c)[q],
{
    let ls = lines_of(c);
    lemma_has_first_pkg(ls, q);
    let f = choose|f: int| first_pkg(ls, f);
    lemma_sort_parts(c, f);
    let a = walk_back(ls, f);
    let header = drop_trailing_blank(ls.subrange(0, a));
    let rest = ls.subrange(a, ls.len() as int);
    let (es, trailing) = entries_of(rest);
    let sorted = stable_sort(es);
    let out = assemble(header, sorted, trailing);
    lemma_assembled_clean(header, sorted, trailing);
    lemma_join_round_trip(out);
    assert(sort_spec(c) == join_nl(out));
    // The entry line sits below the first package's comments.
    assert(q >= f);
    lemma_walk_back_bounds(ls, f);
    if q == a {
        lemma_comment_start(ls[q - 1]);
        lemma_walk_back_bounds(ls, f - 1);
        assert(false);
    }
    let q2 = q - a;
    assert(rest[q2] == ls[q]);
    assert(rest[q2 - 1] == ls[q - 1]);
    if blank(ls[q]) {
        lemma_blank_not_pkg(ls[q]);
    }
    if comment_line(ls[q]) {
        lemma_comment_not_pkg(ls[q]);
    }
    lemma_entry_with_comment(rest, q2);
    let k = choose|k: int|
        0 <= k < es.len() && (#[trigger] es[k]).1 == rest[q2] && es[k].0.len() > 0 && es[k].0.last() == rest[q2 - 1];
    lemma_sort_facts(es);
    assert(sorted.contains(es[k]));
    let m = choose|m: int| 0 <= m < sorted.len() && sorted[m] == es[k];
    lemma_entry_block(sorted, header.len() > 0, m);
    let el = entry_lines(sorted, header.len() > 0);
    let p = choose|p: int| 0 <= p && p + 1 < el.len() && #[trigger] el[p] == sorted[m].0.last() && el[p + 1] == sorted[m].1;
    let tail = tail_of(trailing);
    assert(out == header + el + tail);
    assert(out[header.len() + p] == el[p]);
    assert(out[header.len() + p + 1] == el[p + 1]);
    assert(lines_of(sort_spec(c))[header.len() + p] == ls[q - 1]);
}

// ---------------------------------------------------------------------------
// Appending captured tokens to a Brewfile.

/// Text ending in a newline: as it is when empty or already so ending, else
/// with one added.
pub open spec fn line_ended(c: Seq<char>) -> Seq<char> {
    if c.len() > 0 && c.last() != '\n' {
        c.push('\n')
    } else {
        c
    }
}

proof fn lemma_join_concat(a: Seq<Seq<char>>, b: Seq<Seq<char>>)
    ensures
        join_nl(a + b) == join_nl(a) + join_nl(b),
    decreases b.len(),
{
    if b.len() == 0 {
        assert(a + b =~= a);
    } else {
        lemma_join_concat(a, b.drop_last());
        assert((a + b).drop_last() =~= a + b.drop_last());
        assert((a + b).last() == b.last());
    }
}

/// Appending no tokens leaves the Brewfile as it is.
pub proof fn law_adding_nothing_changes_nothing(c: Seq<char>)
    ensures
        with_adds_spec(c, Seq::empty()) == c,
{
    assert(join_nl(Seq::<Seq<char>>::empty()) == Seq::<char>::empty());
}

/// Appending one token puts it on a line of its own at the end: the content
/// (its last line ended if it was not), then the token, then a newline.
pub proof fn law_adding_one_token_appends_its_line(c: Seq<char>, t: Seq<char>)
    ensures
        with_adds_spec(c, seq![t]) == line_ended(c) + t + seq!['\n'],
{
    let ts = seq![t];
    assert(ts.drop_last() =~= Seq::<Seq<char>>::empty());
    assert(join_nl(ts) == join_nl(ts.drop_last()) + t + seq!['\n']);
    assert(join_nl(ts) =~= t + seq!['\n']);
}

/// Appending tokens in two calls gives what appending them all in one call
/// gives: each call appends every token it is handed, in order.
pub proof fn law_adding_tokens_composes(c: Seq<char>, a: Seq<Seq<char>>, b: Seq<Seq<char>>)
    ensures
        with_adds_spec(c, a + b) == with_adds_spec(with_adds_spec(c, a), b),
{
    lemma_join_concat(a, b);
    let r1 = with_adds_spec(c, a);
    if a.len() == 0 {
        assert(a + b =~= b);
        assert(join_nl(a) == Seq::<char>::empty());
        assert(r1 =~= c);
    } else if b.len() == 0 {
        assert(a + b =~= a);
        assert(join_nl(b) == Seq::<char>::empty());
        assert(with_adds_spec(r1, b) =~= r1);
    } else {
        let base = if c.len() > 0 && c.last() != '\n' { c.push('\n') } else { c };
        assert(join_nl(a) == join_nl(a.drop_last()) + a.last() + seq!['\n']);
        assert(r1 == base + join_nl(a));
        assert(r1.len() > 0 && r1.last() == '\n');
        assert(with_adds_spec(r1, b) == r1 + join_nl(b));
        assert(with_adds_spec(c, a + b) == base + join_nl(a + b));
        assert(base + (join_nl(a) + join_nl(b)) =~= (base + join_nl(a)) + join_nl(b));
    }
}

} // verus!
