//! What the dconf text operations promise together: a rendering reads back as
//! its blocks, edits change exactly the key they name, absorbing drift clears
//! it, and stripped keys never read as drift.
use vstd::prelude::*;
use crate::text::{
    after, before, has_char, is_first, is_ws, join_nl, lemma_first_unique, lemma_trim_ends,
    strip_lead, strip_trail, lemma_lines_of_join, lemma_trim_strip_cr, lines_of, no_nl, pieces,
    strip_cr, trim,
};
use crate::dconf::{
    block_lines, blocks_of, drop_key_lines, entry_line, first_block, first_with_key, header_for,
    is_header, line_has_key, set_in_lines, with_key_blocks, with_key_spec, without_key_blocks,
    without_key_spec, blocks_after, line_is_entry, line_is_header, line_key, line_value, model_after,
    render_lines, render_spec, section_after, section_spec, BlockV, DumpModel, dump_model,
    absorbed_spec, diff_is_for, diff_key, is_diff_of, lookup, kept_lines, key_id_spec, stripped,
    strip_spec, flatten, key_lt,
};

verus! {

/// Reading `a` then `b` is reading `a + b`.
pub proof fn lemma_model_concat(a: Seq<Seq<char>>, b: Seq<Seq<char>>, s0: Seq<char>, m0: DumpModel)
    ensures
        section_after(a + b, s0) == section_after(b, section_after(a, s0)),
        model_after(a + b, s0, m0) == model_after(b, section_after(a, s0), model_after(a, s0, m0)),
    decreases b.len(),
{
    if b.len() == 0 {
        assert(a + b =~= a);
    } else {
        lemma_model_concat(a, b.drop_last(), s0, m0);
        assert((a + b).drop_last() =~= a + b.drop_last());
        assert((a + b).last() == b.last());
    }
}

/// Reading depends on each line only through its trimmed form.
pub proof fn lemma_model_trim(a: Seq<Seq<char>>, b: Seq<Seq<char>>, s0: Seq<char>, m0: DumpModel)
    requires
        a.len() == b.len(),
        forall|i: int| 0 <= i < a.len() ==> trim(#[trigger] a[i]) == trim(b[i]),
    ensures
        section_after(a, s0) == section_after(b, s0),
        model_after(a, s0, m0) == model_after(b, s0, m0),
    decreases a.len(),
{
    if a.len() > 0 {
        let a0 = a.drop_last();
        let b0 = b.drop_last();
        assert forall|i: int| 0 <= i < a0.len() implies trim(#[trigger] a0[i]) == trim(b0[i]) by {
            assert(a0[i] == a[i]);
            assert(b0[i] == b[i]);
        }
        lemma_model_trim(a0, b0, s0, m0);
        assert(trim(a.last()) == trim(b.last())) by {
            assert(a.last() == a[a.len() - 1]);
            assert(b.last() == b[b.len() - 1]);
        }
    }
}

/// Lines without a header stay in the section they start in.
pub proof fn lemma_section_kept(ls: Seq<Seq<char>>, s0: Seq<char>)
    requires
        forall|i: int| 0 <= i < ls.len() ==> !line_is_header(#[trigger] ls[i]),
    ensures
        section_after(ls, s0) == s0,
    decreases ls.len(),
{
    if ls.len() > 0 {
        let l0 = ls.drop_last();
        assert forall|i: int| 0 <= i < l0.len() implies !line_is_header(#[trigger] l0[i]) by {
            assert(l0[i] == ls[i]);
        }
        lemma_section_kept(l0, s0);
        assert(!line_is_header(ls[ls.len() - 1]));
    }
}

/// Reading onto a map is that map overridden by what the lines set.
pub proof fn lemma_model_union(ls: Seq<Seq<char>>, s0: Seq<char>, m0: DumpModel)
    ensures
        model_after(ls, s0, m0) == m0.union_prefer_right(model_after(ls, s0, Map::empty())),
    decreases ls.len(),
{
    if ls.len() == 0 {
        assert(m0.union_prefer_right(Map::<(Seq<char>, Seq<char>), Seq<char>>::empty()) =~= m0);
    } else {
        lemma_model_union(ls.drop_last(), s0, m0);
        let l = ls.last();
        if line_is_entry(l) {
            let k = (section_after(ls.drop_last(), s0), line_key(l));
            let e = model_after(ls.drop_last(), s0, Map::empty());
            assert(m0.union_prefer_right(e).insert(k, line_value(l)) =~= m0.union_prefer_right(
                e.insert(k, line_value(l)),
            ));
        }
    }
}

/// The lines `str::lines` yields hold no newline.
pub proof fn lemma_pieces_no_nl(s: Seq<char>)
    ensures
        forall|i: int| 0 <= i < pieces(s).len() ==> no_nl(#[trigger] pieces(s)[i]),
    decreases s.len(),
{
    if s.len() > 0 {
        let p = pieces(s.drop_last());
        lemma_pieces_no_nl(s.drop_last());
        crate::text::lemma_pieces_nonempty(s.drop_last());
        if s.last() != '\n' {
            let q = pieces(s);
            assert forall|i: int| 0 <= i < q.len() implies no_nl(#[trigger] q[i]) by {
                if i == p.len() - 1 {
                    let l = p.last().push(s.last());
                    assert(q[i] == l);
                    if has_char(l, '\n') {
                        let j = choose|j: int| 0 <= j < l.len() && l[j] == '\n';
                        if j < l.len() - 1 {
                            assert(p.last()[j] == '\n');
                            assert(p[p.len() - 1] == p.last());
                        }
                    }
                } else {
                    assert(q[i] == p[i]);
                }
            }
        } else {
            let q = pieces(s);
            assert forall|i: int| 0 <= i < q.len() implies no_nl(#[trigger] q[i]) by {
                if i < p.len() {
                    assert(q[i] == p[i]);
                }
            }
        }
    }
}

pub proof fn lemma_lines_no_nl(s: Seq<char>)
    ensures
        forall|i: int| 0 <= i < lines_of(s).len() ==> no_nl(#[trigger] lines_of(s)[i]),
{
    lemma_pieces_no_nl(s);
    crate::text::lemma_pieces_nonempty(s);
    let p = pieces(s);
    let ls = lines_of(s);
    assert forall|i: int| 0 <= i < ls.len() implies no_nl(#[trigger] ls[i]) by {
        if i < p.len() - 1 {
            let l = p[i];
            assert(ls[i] == strip_cr(l));
            if has_char(strip_cr(l), '\n') {
                let j = choose|j: int| 0 <= j < strip_cr(l).len() && strip_cr(l)[j] == '\n';
                assert(l[j] == '\n');
            }
        } else {
            assert(ls[i] == p[p.len() - 1]);
        }
    }
}


/// A block line: one line, not a header, not blank.
pub open spec fn wf_line(l: Seq<char>) -> bool {
    no_nl(l) && !line_is_header(l) && trim(l).len() > 0
}

/// A block whose header line is a header denoting its section, over block
/// lines.
pub open spec fn wf_block(b: BlockV) -> bool {
    &&& no_nl(b.0)
    &&& line_is_header(b.0)
    &&& section_spec(trim(b.0)) == b.1
    &&& forall|i: int| 0 <= i < b.2.len() ==> wf_line(#[trigger] b.2[i])
}

pub open spec fn wf_blocks(bs: Seq<BlockV>) -> bool {
    forall|i: int| 0 <= i < bs.len() ==> wf_block(#[trigger] bs[i])
}

/// What one block's lines set, in its section.
pub open spec fn block_entries(b: BlockV) -> DumpModel {
    model_after(b.2, b.1, Map::empty())
}

/// What a list of blocks sets, later blocks winning.
pub open spec fn blocks_model(bs: Seq<BlockV>) -> DumpModel
    decreases bs.len(),
{
    if bs.len() == 0 {
        Map::empty()
    } else {
        blocks_model(bs.drop_last()).union_prefer_right(block_entries(bs.last()))
    }
}

proof fn lemma_blank_line_noop(ls: Seq<Seq<char>>, s0: Seq<char>, m0: DumpModel)
    ensures
        model_after(ls.push(Seq::empty()), s0, m0) == model_after(ls, s0, m0),
        section_after(ls.push(Seq::empty()), s0) == section_after(ls, s0),
{
    let l = Seq::<char>::empty();
    assert(ls.push(l).drop_last() =~= ls);
    assert(trim(l) =~= l);
    assert(!has_char(trim(l), '='));
}

/// Reading a rendering of well-formed blocks sets what the blocks set.
pub proof fn lemma_render_lines_model(bs: Seq<BlockV>, s0: Seq<char>)
    requires
        wf_blocks(bs),
    ensures
        model_after(render_lines(bs), s0, Map::empty()) == blocks_model(bs),
        forall|i: int| 0 <= i < render_lines(bs).len() ==> no_nl(#[trigger] render_lines(bs)[i]),
        render_lines(bs).len() > 0 ==> render_lines(bs).last() == Seq::<char>::empty(),
    decreases bs.len(),
{
    if bs.len() == 0 {
    } else {
        let pre = bs.drop_last();
        let b = bs.last();
        assert(wf_blocks(pre)) by {
            assert forall|i: int| 0 <= i < pre.len() implies wf_block(#[trigger] pre[i]) by {
                assert(pre[i] == bs[i]);
            }
        }
        assert(wf_block(b)) by {
            assert(bs[bs.len() - 1] == b);
        }
        lemma_render_lines_model(pre, s0);
        let r0 = render_lines(pre);
        let m = blocks_model(pre);
        let sec = section_after(r0, s0);
        let bl = block_lines(b);
        lemma_model_concat(r0, bl, s0, Map::empty());
        if b.2.len() == 0 {
            assert(r0 + bl =~= r0);
            assert(block_entries(b) =~= Map::<(Seq<char>, Seq<char>), Seq<char>>::empty());
            assert(m.union_prefer_right(block_entries(b)) =~= m);
        } else {
            let h = seq![b.0];
            let e = seq![Seq::<char>::empty()];
            assert(bl == h + b.2 + e);
            lemma_model_concat(h + b.2, e, sec, m);
            lemma_model_concat(h, b.2, sec, m);
            assert(h.drop_last() =~= Seq::<Seq<char>>::empty());
            assert(section_after(h, sec) == b.1);
            assert(h.last() == b.0);
            assert(model_after(h.drop_last(), sec, m) == m);
            assert(model_after(h, sec, m) == m);
            assert(e =~= Seq::<Seq<char>>::empty().push(Seq::<char>::empty()));
            lemma_blank_line_noop(Seq::empty(), section_after(h + b.2, sec), model_after(h + b.2, sec, m));
            lemma_model_union(b.2, b.1, m);
            let r = render_lines(bs);
            assert(r == r0 + bl);
            assert forall|i: int| 0 <= i < r.len() implies no_nl(#[trigger] r[i]) by {
                if i < r0.len() {
                    assert(r[i] == r0[i]);
                } else if i == r0.len() {
                    assert(r[i] == b.0);
                } else if i < r0.len() + 1 + b.2.len() {
                    assert(r[i] == b.2[i - r0.len() - 1]);
                    assert(wf_line(b.2[i - r0.len() - 1]));
                } else {
                    assert(r[i] == Seq::<char>::empty());
                    assert(!has_char(r[i], '\n'));
                }
            }
        }
    }
}

/// The text of well-formed blocks means what the blocks set.
pub proof fn lemma_render_model(bs: Seq<BlockV>)
    requires
        wf_blocks(bs),
    ensures
        dump_model(render_spec(bs)) == blocks_model(bs),
{
    let s0 = Seq::<char>::empty();
    lemma_render_lines_model(bs, s0);
    let r = render_lines(bs);
    let r1 = if r.len() > 0 {
        r.drop_last()
    } else {
        r
    };
    assert forall|i: int| 0 <= i < r1.len() implies no_nl(#[trigger] r1[i]) by {
        assert(r1[i] == r[i]);
    }
    lemma_lines_of_join(r1);
    let cr = r1.map_values(|l: Seq<char>| strip_cr(l));
    assert forall|i: int| 0 <= i < cr.len() implies trim(#[trigger] cr[i]) == trim(r1[i]) by {
        lemma_trim_strip_cr(r1[i]);
    }
    lemma_model_trim(cr, r1, s0, Map::empty());
    if r.len() > 0 {
        assert(r1.push(Seq::<char>::empty()) =~= r);
        lemma_blank_line_noop(r1, s0, Map::empty());
    }
}

/// No `key=value` line before the first header.
pub open spec fn orphan_free(ls: Seq<Seq<char>>) -> bool {
    forall|i: int|
        0 <= i < ls.len() && line_is_entry(#[trigger] ls[i]) ==> exists|j: int|
            0 <= j < i && line_is_header(ls[j])
}

/// The blocks of some lines are well-formed, end in the section the lines
/// end in, and (with no orphaned entry) set what the lines set.
pub proof fn lemma_blocks_after(ls: Seq<Seq<char>>, s0: Seq<char>)
    requires
        forall|i: int| 0 <= i < ls.len() ==> no_nl(#[trigger] ls[i]),
    ensures
        wf_blocks(blocks_after(ls)),
        blocks_after(ls).len() > 0 ==> section_after(ls, s0) == blocks_after(ls).last().1,
        blocks_after(ls).len() == 0 ==> forall|i: int|
            0 <= i < ls.len() ==> !line_is_header(#[trigger] ls[i]),
        orphan_free(ls) ==> blocks_model(blocks_after(ls)) == model_after(ls, s0, Map::empty()),
    decreases ls.len(),
{
    if ls.len() == 0 {
    } else {
        let pre = ls.drop_last();
        let l = ls.last();
        assert forall|i: int| 0 <= i < pre.len() implies no_nl(#[trigger] pre[i]) by {
            assert(pre[i] == ls[i]);
        }
        assert(no_nl(l)) by {
            assert(ls[ls.len() - 1] == l);
        }
        lemma_blocks_after(pre, s0);
        let bs0 = blocks_after(pre);
        let bs = blocks_after(ls);
        if orphan_free(ls) {
            assert(orphan_free(pre)) by {
                assert forall|i: int|
                    0 <= i < pre.len() && line_is_entry(#[trigger] pre[i]) implies exists|j: int|
                    0 <= j < i && line_is_header(pre[j]) by {
                    assert(ls[i] == pre[i]);
                    let j = choose|j: int| 0 <= j < i && line_is_header(ls[j]);
                    assert(pre[j] == ls[j]);
                }
            }
        }
        if line_is_header(l) {
            let nb = (l, section_spec(trim(l)), Seq::<Seq<char>>::empty());
            assert(bs == bs0.push(nb));
            assert(wf_blocks(bs)) by {
                assert forall|i: int| 0 <= i < bs.len() implies wf_block(#[trigger] bs[i]) by {
                    if i < bs0.len() {
                        assert(bs[i] == bs0[i]);
                    }
                }
            }
            assert(bs.drop_last() =~= bs0);
            assert(block_entries(nb) =~= Map::<(Seq<char>, Seq<char>), Seq<char>>::empty());
            assert(blocks_model(bs0).union_prefer_right(block_entries(nb)) =~= blocks_model(bs0));
        } else if trim(l).len() == 0 || bs0.len() == 0 {
            assert(bs == bs0);
            if bs0.len() == 0 {
                assert forall|i: int| 0 <= i < ls.len() implies !line_is_header(#[trigger] ls[i]) by {
                    if i < pre.len() {
                        assert(ls[i] == pre[i]);
                    }
                }
                if orphan_free(ls) && line_is_entry(l) {
                    assert(line_is_entry(ls[ls.len() - 1]));
                    let j = choose|j: int| 0 <= j < ls.len() - 1 && line_is_header(ls[j]);
                    assert(pre[j] == ls[j]);
                }
            } else {
                assert(!has_char(trim(l), '='));
            }
        } else {
            let b = bs0.last();
            let nb = (b.0, b.1, b.2.push(l));
            assert(bs == bs0.update(bs0.len() - 1, nb));
            assert(wf_block(b)) by {
                assert(bs0[bs0.len() - 1] == b);
            }
            assert(wf_blocks(bs)) by {
                assert forall|i: int| 0 <= i < bs.len() implies wf_block(#[trigger] bs[i]) by {
                    if i < bs0.len() - 1 {
                        assert(bs[i] == bs0[i]);
                    } else {
                        assert forall|q: int| 0 <= q < nb.2.len() implies wf_line(#[trigger] nb.2[q]) by {
                            if q < b.2.len() {
                                assert(nb.2[q] == b.2[q]);
                            }
                        }
                    }
                }
            }
            assert(bs.drop_last() =~= bs0.drop_last());
            assert(nb.2.drop_last() =~= b.2);
            assert forall|q: int| 0 <= q < b.2.len() implies !line_is_header(#[trigger] b.2[q]) by {
                assert(wf_line(b.2[q]));
            }
            lemma_section_kept(b.2, b.1);
            if orphan_free(ls) {
                let e0 = block_entries(b);
                let mp = blocks_model(bs0.drop_last());
                if line_is_entry(l) {
                    let k = (b.1, line_key(l));
                    assert(block_entries(nb) == e0.insert(k, line_value(l)));
                    assert(mp.union_prefer_right(e0).insert(k, line_value(l)) =~= mp.union_prefer_right(
                        e0.insert(k, line_value(l)),
                    ));
                } else {
                    assert(block_entries(nb) == e0);
                }
            }
        }
    }
}


/// No key set twice among a block's lines.
pub open spec fn unique_keys(ls: Seq<Seq<char>>) -> bool {
    forall|p: int, q: int|
        0 <= p < q < ls.len() && line_is_entry(#[trigger] ls[p]) && line_is_entry(#[trigger] ls[q])
            ==> line_key(ls[p]) != line_key(ls[q])
}

pub open spec fn header_free(ls: Seq<Seq<char>>) -> bool {
    forall|i: int| 0 <= i < ls.len() ==> !line_is_header(#[trigger] ls[i])
}

/// The keys a block's lines set all lie in its section, and (keys being
/// unique) each holds its line's value.
pub proof fn lemma_block_keys(ls: Seq<Seq<char>>, s: Seq<char>)
    requires
        header_free(ls),
    ensures
        forall|x: (Seq<char>, Seq<char>)| #[trigger]
            model_after(ls, s, Map::empty()).dom().contains(x) <==> (x.0 == s && exists|i: int|
                0 <= i < ls.len() && line_is_entry(ls[i]) && line_key(ls[i]) == x.1),
        unique_keys(ls) ==> forall|i: int|
            0 <= i < ls.len() && line_is_entry(#[trigger] ls[i]) ==> model_after(
                ls,
                s,
                Map::empty(),
            )[(s, line_key(ls[i]))] == line_value(ls[i]),
    decreases ls.len(),
{
    if ls.len() > 0 {
        let pre = ls.drop_last();
        let l = ls.last();
        assert(header_free(pre)) by {
            assert forall|i: int| 0 <= i < pre.len() implies !line_is_header(#[trigger] pre[i]) by {
                assert(pre[i] == ls[i]);
            }
        }
        lemma_block_keys(pre, s);
        lemma_section_kept(pre, s);
        let m = model_after(ls, s, Map::empty());
        let m0 = model_after(pre, s, Map::empty());
        assert forall|x: (Seq<char>, Seq<char>)| #[trigger] m.dom().contains(x) <==> (x.0 == s
            && exists|i: int| 0 <= i < ls.len() && line_is_entry(ls[i]) && line_key(ls[i]) == x.1) by {
            if m.dom().contains(x) {
                if m0.dom().contains(x) {
                    let i = choose|i: int| 0 <= i < pre.len() && line_is_entry(pre[i]) && line_key(pre[i]) == x.1;
                    assert(ls[i] == pre[i]);
                } else {
                    assert(ls[ls.len() - 1] == l);
                }
            }
            if x.0 == s && exists|i: int| 0 <= i < ls.len() && line_is_entry(ls[i]) && line_key(ls[i]) == x.1 {
                let i = choose|i: int| 0 <= i < ls.len() && line_is_entry(ls[i]) && line_key(ls[i]) == x.1;
                if i < pre.len() {
                    assert(pre[i] == ls[i]);
                    assert(m0.dom().contains(x));
                } else {
                    assert(ls[i] == l);
                }
            }
        }
        if unique_keys(ls) {
            assert(unique_keys(pre)) by {
                assert forall|p: int, q: int|
                    0 <= p < q < pre.len() && line_is_entry(#[trigger] pre[p]) && line_is_entry(#[trigger] pre[q])
                        implies line_key(pre[p]) != line_key(pre[q]) by {
                    assert(pre[p] == ls[p]);
                    assert(pre[q] == ls[q]);
                }
            }
            assert forall|i: int| 0 <= i < ls.len() && line_is_entry(#[trigger] ls[i]) implies m[(
                s,
                line_key(ls[i]),
            )] == line_value(ls[i]) by {
                if i < pre.len() {
                    assert(pre[i] == ls[i]);
                    if line_is_entry(l) {
                        assert(ls[ls.len() - 1] == l);
                        assert(line_key(l) != line_key(ls[i]));
                    }
                }
            }
        }
    }
}

/// Replacing the one line with key `k` by a line setting `k` to `v` sets
/// `k` to `v`.
pub proof fn lemma_block_update(ls: Seq<Seq<char>>, s: Seq<char>, j: int, e: Seq<char>)
    requires
        header_free(ls),
        unique_keys(ls),
        0 <= j < ls.len(),
        line_is_entry(ls[j]),
        line_is_entry(e),
        line_key(e) == line_key(ls[j]),
    ensures
        model_after(ls.update(j, e), s, Map::empty()) == model_after(ls, s, Map::empty()).insert(
            (s, line_key(e)),
            line_value(e),
        ),
    decreases ls.len(),
{
    let n = ls.len() - 1;
    let pre = ls.drop_last();
    let u = ls.update(j, e);
    let k = (s, line_key(e));
    assert(header_free(pre)) by {
        assert forall|i: int| 0 <= i < pre.len() implies !line_is_header(#[trigger] pre[i]) by {
            assert(pre[i] == ls[i]);
        }
    }
    lemma_section_kept(pre, s);
    if j == n {
        assert(u.drop_last() =~= pre);
        assert(u.last() == e);
        assert(ls.last() == ls[j]);
        assert(model_after(pre, s, Map::empty()).insert(k, line_value(ls[j])).insert(k, line_value(e))
            =~= model_after(pre, s, Map::empty()).insert(k, line_value(e)));
    } else {
        assert(unique_keys(pre)) by {
            assert forall|p: int, q: int|
                0 <= p < q < pre.len() && line_is_entry(#[trigger] pre[p]) && line_is_entry(#[trigger] pre[q])
                    implies line_key(pre[p]) != line_key(pre[q]) by {
                assert(pre[p] == ls[p]);
                assert(pre[q] == ls[q]);
            }
        }
        assert(pre[j] == ls[j]);
        lemma_block_update(pre, s, j, e);
        assert(u.drop_last() =~= pre.update(j, e));
        assert(header_free(pre.update(j, e))) by {
            assert forall|i: int| 0 <= i < pre.update(j, e).len() implies !line_is_header(#[trigger] pre.update(j, e)[i]) by {
                if i != j {
                    assert(pre.update(j, e)[i] == ls[i]);
                }
            }
        }
        lemma_section_kept(pre.update(j, e), s);
        let l = ls.last();
        assert(u.last() == l);
        assert(ls[n] == l);
        if line_is_entry(l) {
            assert(line_key(l) != line_key(ls[j]));
            let m0 = model_after(pre, s, Map::empty());
            assert(m0.insert(k, line_value(e)).insert((s, line_key(l)), line_value(l)) =~= m0.insert(
                (s, line_key(l)),
                line_value(l),
            ).insert(k, line_value(e)));
        }
    }
}


/// Dropping the lines with key `k` unsets `k`; what is left are lines of the
/// block, in order.
pub proof fn lemma_block_drop(ls: Seq<Seq<char>>, s: Seq<char>, k: Seq<char>)
    requires
        header_free(ls),
    ensures
        model_after(drop_key_lines(ls, k), s, Map::empty()) == model_after(ls, s, Map::empty()).remove(
            (s, k),
        ),
        forall|i: int|
            0 <= i < drop_key_lines(ls, k).len() ==> exists|j: int|
                0 <= j < ls.len() && #[trigger] drop_key_lines(ls, k)[i] == ls[j],
        header_free(drop_key_lines(ls, k)),
        unique_keys(ls) ==> unique_keys(drop_key_lines(ls, k)),
    decreases ls.len(),
{
    let d = drop_key_lines(ls, k);
    if ls.len() == 0 {
        assert(model_after(ls, s, Map::empty()).remove((s, k)) =~= Map::<(Seq<char>, Seq<char>), Seq<char>>::empty());
    } else {
        let pre = ls.drop_last();
        let l = ls.last();
        assert(ls[ls.len() - 1] == l);
        assert(header_free(pre)) by {
            assert forall|i: int| 0 <= i < pre.len() implies !line_is_header(#[trigger] pre[i]) by {
                assert(pre[i] == ls[i]);
            }
        }
        lemma_block_drop(pre, s, k);
        let d0 = drop_key_lines(pre, k);
        lemma_section_kept(pre, s);
        lemma_section_kept(d0, s);
        let m0 = model_after(pre, s, Map::empty());
        if line_has_key(l, k) {
            assert(d == d0);
            assert(line_is_entry(l));
            assert(m0.insert((s, k), line_value(l)).remove((s, k)) =~= m0.remove((s, k)));
            assert forall|i: int| 0 <= i < d.len() implies exists|j: int|
                0 <= j < ls.len() && #[trigger] d[i] == ls[j] by {
                let j = choose|j: int| 0 <= j < pre.len() && #[trigger] d0[i] == pre[j];
                assert(ls[j] == pre[j]);
            }
        } else {
            assert(d == d0.push(l));
            assert(d.drop_last() =~= d0);
            assert(d.last() == l);
            if line_is_entry(l) {
                assert(line_key(l) != k);
                assert(m0.remove((s, k)).insert((s, line_key(l)), line_value(l)) =~= m0.insert(
                    (s, line_key(l)),
                    line_value(l),
                ).remove((s, k)));
            }
            assert forall|i: int| 0 <= i < d.len() implies exists|j: int|
                0 <= j < ls.len() && #[trigger] d[i] == ls[j] by {
                if i < d0.len() {
                    let j = choose|j: int| 0 <= j < pre.len() && #[trigger] d0[i] == pre[j];
                    assert(ls[j] == pre[j]);
                } else {
                    assert(d[i] == ls[ls.len() - 1]);
                }
            }
            assert(header_free(d)) by {
                assert forall|i: int| 0 <= i < d.len() implies !line_is_header(#[trigger] d[i]) by {
                    if i < d0.len() {
                        assert(d[i] == d0[i]);
                    }
                }
            }
            if unique_keys(ls) {
                assert(unique_keys(pre)) by {
                    assert forall|p: int, q: int|
                        0 <= p < q < pre.len() && line_is_entry(#[trigger] pre[p]) && line_is_entry(#[trigger] pre[q])
                            implies line_key(pre[p]) != line_key(pre[q]) by {
                        assert(pre[p] == ls[p]);
                        assert(pre[q] == ls[q]);
                    }
                }
                assert forall|p: int, q: int|
                    0 <= p < q < d.len() && line_is_entry(#[trigger] d[p]) && line_is_entry(#[trigger] d[q])
                        implies line_key(d[p]) != line_key(d[q]) by {
                    if q < d0.len() {
                        assert(d[p] == d0[p]);
                        assert(d[q] == d0[q]);
                    } else {
                        assert(d[p] == d0[p]);
                        let j = choose|j: int| 0 <= j < pre.len() && #[trigger] d0[p] == pre[j];
                        assert(pre[j] == ls[j]);
                    }
                }
            }
        }
    }
}

/// No two blocks in one section.
pub open spec fn distinct_sections(bs: Seq<BlockV>) -> bool {
    forall|i: int, j: int| 0 <= i < j < bs.len() ==> (#[trigger] bs[i]).1 != (#[trigger] bs[j]).1
}

pub open spec fn canonical_blocks(bs: Seq<BlockV>) -> bool {
    &&& distinct_sections(bs)
    &&& forall|i: int| 0 <= i < bs.len() ==> unique_keys(#[trigger] bs[i].2)
}

/// A dump in the shape dconf writes: no `key=value` before the first
/// header, no section twice, no key twice within its section.
pub open spec fn canonical(d: Seq<char>) -> bool {
    orphan_free(lines_of(d)) && canonical_blocks(blocks_of(d))
}

/// A section a fresh `[…]` header spells back exactly.
pub open spec fn valid_section(s: Seq<char>) -> bool {
    &&& no_nl(s)
    &&& s.len() > 0 ==> s[0] != '[' && s[0] != '/' && s.last() != ']' && s.last() != '/'
}

/// A key and value that a `key=value` line reads back exactly.
pub open spec fn valid_entry(k: Seq<char>, v: Seq<char>) -> bool {
    &&& no_nl(k)
    &&& no_nl(v)
    &&& !has_char(k, '=')
    &&& k.len() > 0 ==> !is_ws(k[0]) && !is_ws(k.last())
    &&& v.len() > 0 ==> !is_ws(v[0]) && !is_ws(v.last())
    &&& !is_header(entry_line(k, v))
}

proof fn lemma_trim_fixed(x: Seq<char>)
    requires
        x.len() > 0 ==> !is_ws(x[0]) && !is_ws(x.last()),
    ensures
        trim(x) == x,
{
}

/// A valid key and value make a block line that reads back as them.
pub proof fn lemma_entry_line(k: Seq<char>, v: Seq<char>)
    requires
        valid_entry(k, v),
    ensures
        wf_line(entry_line(k, v)),
        line_is_entry(entry_line(k, v)),
        line_key(entry_line(k, v)) == k,
        line_value(entry_line(k, v)) == v,
{
    let e = entry_line(k, v);
    assert(e.len() > 0);
    if k.len() > 0 {
        assert(e[0] == k[0]);
    } else {
        assert(e[0] == '=');
    }
    if v.len() > 0 {
        assert(e.last() == v.last());
    } else {
        assert(e.last() == '=');
    }
    lemma_trim_fixed(e);
    lemma_trim_fixed(k);
    lemma_trim_fixed(v);
    assert(is_first(e, '=', k.len() as int)) by {
        assert forall|j: int| 0 <= j < k.len() implies e[j] != '=' by {
            assert(e[j] == k[j]);
        }
    }
    lemma_first_unique(e, '=', k.len() as int);
    assert(before(e, '=') =~= k);
    assert(after(e, '=') =~= v);
    assert(has_char(e, '=')) by {
        assert(e[k.len() as int] == '=');
    }
    assert(no_nl(e)) by {
        if has_char(e, '\n') {
            let j = choose|j: int| 0 <= j < e.len() && e[j] == '\n';
            if j < k.len() {
                assert(k[j] == '\n');
            } else if j > k.len() {
                assert(v[j - k.len() - 1] == '\n');
            }
        }
    }
}

/// The header written for a valid section is a header that denotes it.
pub proof fn lemma_header_for(s: Seq<char>)
    requires
        valid_section(s),
    ensures
        no_nl(header_for(s)),
        line_is_header(header_for(s)),
        section_spec(trim(header_for(s))) == s,
{
    let h = header_for(s);
    lemma_trim_fixed(h);
    if s.len() == 0 {
        let a = seq!['/', ']'];
        assert(h[0] == '[');
        assert(h.drop_first() =~= a);
        assert(strip_lead(a, '[') == a);
        assert(strip_lead(h, '[') == a);
        let b = seq!['/'];
        assert(a.drop_last() =~= b);
        assert(a.last() == ']');
        assert(b.last() == '/');
        assert(strip_trail(b, ']') == b);
        assert(strip_trail(a, ']') == b);
        let z = Seq::<char>::empty();
        assert(b[0] == '/');
        assert(b.drop_first() =~= z);
        assert(strip_lead(z, '/') == z);
        assert(strip_lead(b, '/') == z);
        assert(strip_trail(z, '/') == z);
    } else {
        let a = s + seq![']'];
        assert(h[0] == '[');
        assert(h.drop_first() =~= a);
        assert(a[0] == s[0]);
        assert(strip_lead(a, '[') == a);
        assert(strip_lead(h, '[') == a);
        assert(a.drop_last() =~= s);
        assert(a.last() == ']');
        assert(strip_trail(s, ']') == s);
        assert(strip_trail(a, ']') == s);
        assert(strip_lead(s, '/') == s);
        assert(strip_trail(s, '/') == s);
    }
    assert(no_nl(h)) by {
        if has_char(h, '\n') {
            let j = choose|j: int| 0 <= j < h.len() && h[j] == '\n';
            if s.len() > 0 && 0 < j && j <= s.len() {
                assert(s[j - 1] == '\n');
            }
        }
    }
}


proof fn lemma_wf_block_lines(b: BlockV)
    requires
        wf_block(b),
    ensures
        header_free(b.2),
{
    assert forall|i: int| 0 <= i < b.2.len() implies !line_is_header(#[trigger] b.2[i]) by {
        assert(wf_line(b.2[i]));
    }
}

proof fn lemma_wf_prefix(bs: Seq<BlockV>)
    requires
        wf_blocks(bs),
        bs.len() > 0,
    ensures
        wf_blocks(bs.drop_last()),
        wf_block(bs.last()),
{
    assert(bs[bs.len() - 1] == bs.last());
    assert forall|i: int| 0 <= i < bs.drop_last().len() implies wf_block(#[trigger] bs.drop_last()[i]) by {
        assert(bs.drop_last()[i] == bs[i]);
    }
}

/// Every key the blocks set lies in the section of one of them.
pub proof fn lemma_blocks_model_sections(bs: Seq<BlockV>, x: (Seq<char>, Seq<char>))
    requires
        wf_blocks(bs),
        blocks_model(bs).dom().contains(x),
    ensures
        exists|i: int| 0 <= i < bs.len() && (#[trigger] bs[i]).1 == x.0,
    decreases bs.len(),
{
    lemma_wf_prefix(bs);
    let b = bs.last();
    lemma_wf_block_lines(b);
    lemma_block_keys(b.2, b.1);
    if block_entries(b).dom().contains(x) {
        assert(bs[bs.len() - 1].1 == x.0);
    } else {
        lemma_blocks_model_sections(bs.drop_last(), x);
        let i = choose|i: int| 0 <= i < bs.drop_last().len() && (#[trigger] bs.drop_last()[i]).1 == x.0;
        assert(bs[i] == bs.drop_last()[i]);
    }
}

/// Changing one block's entries at key `x`, in a list where no other block
/// shares its section, changes the whole at `x` alike.
pub proof fn lemma_blocks_update(
    bs: Seq<BlockV>,
    i: int,
    nb: BlockV,
    x: (Seq<char>, Seq<char>),
    v: Option<Seq<char>>,
)
    requires
        wf_blocks(bs),
        wf_block(nb),
        distinct_sections(bs),
        0 <= i < bs.len(),
        bs[i].1 == x.0,
        nb.1 == x.0,
        block_entries(nb) == match v {
            Some(w) => block_entries(bs[i]).insert(x, w),
            None => block_entries(bs[i]).remove(x),
        },
    ensures
        blocks_model(bs.update(i, nb)) == match v {
            Some(w) => blocks_model(bs).insert(x, w),
            None => blocks_model(bs).remove(x),
        },
    decreases bs.len(),
{
    let n = bs.len() - 1;
    let u = bs.update(i, nb);
    lemma_wf_prefix(bs);
    let pre = bs.drop_last();
    let mp = blocks_model(pre);
    if i == n {
        assert(u.drop_last() =~= pre);
        assert(u.last() == nb);
        let e = block_entries(bs.last());
        assert(bs.last() == bs[i]);
        match v {
            Some(w) => {
                assert(mp.union_prefer_right(e.insert(x, w)) =~= mp.union_prefer_right(e).insert(x, w));
            },
            None => {
                if mp.dom().contains(x) {
                    lemma_blocks_model_sections(pre, x);
                    let j = choose|j: int| 0 <= j < pre.len() && (#[trigger] pre[j]).1 == x.0;
                    assert(pre[j] == bs[j]);
                }
                assert(mp.union_prefer_right(e.remove(x)) =~= mp.union_prefer_right(e).remove(x));
            },
        }
    } else {
        let l = bs.last();
        assert(bs[n] == l);
        assert(pre[i] == bs[i]);
        assert(distinct_sections(pre)) by {
            assert forall|p: int, q: int| 0 <= p < q < pre.len() implies (#[trigger] pre[p]).1 != (
            #[trigger] pre[q]).1 by {
                assert(pre[p] == bs[p]);
                assert(pre[q] == bs[q]);
            }
        }
        lemma_blocks_update(pre, i, nb, x, v);
        assert(u.drop_last() =~= pre.update(i, nb));
        assert(u.last() == l);
        lemma_wf_block_lines(l);
        lemma_block_keys(l.2, l.1);
        assert(l.1 != x.0);
        let e = block_entries(l);
        assert(!e.dom().contains(x));
        match v {
            Some(w) => {
                assert(mp.insert(x, w).union_prefer_right(e) =~= mp.union_prefer_right(e).insert(x, w));
            },
            None => {
                assert(mp.remove(x).union_prefer_right(e) =~= mp.union_prefer_right(e).remove(x));
            },
        }
    }
}


proof fn lemma_first_block_exists(bs: Seq<BlockV>, s: Seq<char>, j: int)
    requires
        0 <= j < bs.len(),
        bs[j].1 == s,
    ensures
        exists|i: int| first_block(bs, s, i),
    decreases j,
{
    if exists|q: int| 0 <= q < j && (#[trigger] bs[q]).1 == s {
        let q = choose|q: int| 0 <= q < j && (#[trigger] bs[q]).1 == s;
        lemma_first_block_exists(bs, s, q);
    } else {
        assert(first_block(bs, s, j));
    }
}

/// The blocks of a canonical dump: well-formed, and they set what it sets.
pub proof fn lemma_canonical_blocks(d: Seq<char>)
    requires
        canonical(d),
    ensures
        wf_blocks(blocks_of(d)),
        blocks_model(blocks_of(d)) == dump_model(d),
{
    lemma_lines_no_nl(d);
    lemma_blocks_after(lines_of(d), Seq::empty());
}

/// The edited blocks of a `with_key` are well-formed and set what the dump
/// set, with `section/key` set to `value`.
pub proof fn lemma_with_key_blocks(d: Seq<char>, s: Seq<char>, k: Seq<char>, v: Seq<char>)
    requires
        canonical(d),
        valid_section(s),
        valid_entry(k, v),
    ensures
        wf_blocks(with_key_blocks(blocks_of(d), s, k, v)),
        blocks_model(with_key_blocks(blocks_of(d), s, k, v)) == dump_model(d).insert((s, k), v),
{
    lemma_canonical_blocks(d);
    let bs = blocks_of(d);
    let e = entry_line(k, v);
    lemma_entry_line(k, v);
    let x = (s, k);
    let bs2 = with_key_blocks(bs, s, k, v);
    if exists|i: int| first_block(bs, s, i) {
        let i = choose|i: int| first_block(bs, s, i);
        let b = bs[i];
        assert(wf_block(b));
        lemma_wf_block_lines(b);
        let nl = set_in_lines(b.2, k, e);
        let nb = (b.0, b.1, nl);
        assert(bs2 == bs.update(i, nb));
        if exists|j: int| first_with_key(b.2, k, j) {
            let j = choose|j: int| first_with_key(b.2, k, j);
            assert(nl == b.2.update(j, e));
            assert(line_is_entry(b.2[j])) by {
                assert(!line_is_header(b.2[j]));
            }
            assert(unique_keys(b.2));
            lemma_block_update(b.2, s, j, e);
            assert(wf_block(nb)) by {
                assert forall|q: int| 0 <= q < nl.len() implies wf_line(#[trigger] nl[q]) by {
                    if q != j {
                        assert(nl[q] == b.2[q]);
                    }
                }
            }
        } else {
            assert(nl == b.2.push(e));
            lemma_section_kept(b.2, s);
            assert(nl.drop_last() =~= b.2);
            assert(block_entries(nb) == block_entries(b).insert(x, v));
            assert(wf_block(nb)) by {
                assert forall|q: int| 0 <= q < nl.len() implies wf_line(#[trigger] nl[q]) by {
                    if q < b.2.len() {
                        assert(nl[q] == b.2[q]);
                    }
                }
            }
        }
        lemma_blocks_update(bs, i, nb, x, Some(v));
        assert(wf_blocks(bs2)) by {
            assert forall|q: int| 0 <= q < bs2.len() implies wf_block(#[trigger] bs2[q]) by {
                if q != i {
                    assert(bs2[q] == bs[q]);
                }
            }
        }
    } else {
        let nb = (header_for(s), s, seq![e]);
        assert(bs2 == bs.push(nb));
        lemma_header_for(s);
        assert(wf_block(nb));
        assert(wf_blocks(bs2)) by {
            assert forall|q: int| 0 <= q < bs2.len() implies wf_block(#[trigger] bs2[q]) by {
                if q < bs.len() {
                    assert(bs2[q] == bs[q]);
                }
            }
        }
        assert(bs2.drop_last() =~= bs);
        assert(nb.2.drop_last() =~= Seq::<Seq<char>>::empty());
        assert(nb.2.last() == e);
        assert(section_after(nb.2.drop_last(), s) == s);
        assert(model_after(nb.2.drop_last(), s, Map::empty()) == Map::<(Seq<char>, Seq<char>), Seq<char>>::empty());
        assert(block_entries(nb) == Map::<(Seq<char>, Seq<char>), Seq<char>>::empty().insert(x, v));
        assert(blocks_model(bs).union_prefer_right(block_entries(nb)) =~= blocks_model(bs).insert(
            x,
            v,
        ));
    }
}

/// The edited blocks of a `without_key` are well-formed and set what the
/// dump set, without `section/key`.
pub proof fn lemma_without_key_blocks(d: Seq<char>, s: Seq<char>, k: Seq<char>)
    requires
        canonical(d),
    ensures
        wf_blocks(without_key_blocks(blocks_of(d), s, k)),
        blocks_model(without_key_blocks(blocks_of(d), s, k)) == dump_model(d).remove((s, k)),
{
    lemma_canonical_blocks(d);
    let bs = blocks_of(d);
    let x = (s, k);
    let bs2 = without_key_blocks(bs, s, k);
    if exists|i: int| first_block(bs, s, i) {
        let i = choose|i: int| first_block(bs, s, i);
        let b = bs[i];
        assert(wf_block(b));
        lemma_wf_block_lines(b);
        let nl = drop_key_lines(b.2, k);
        let nb = (b.0, b.1, nl);
        assert(bs2 == bs.update(i, nb));
        lemma_block_drop(b.2, s, k);
        assert(wf_block(nb)) by {
            assert forall|q: int| 0 <= q < nl.len() implies wf_line(#[trigger] nl[q]) by {
                let j = choose|j: int| 0 <= j < b.2.len() && #[trigger] nl[q] == b.2[j];
                assert(wf_line(b.2[j]));
            }
        }
        lemma_blocks_update(bs, i, nb, x, None);
        assert(wf_blocks(bs2)) by {
            assert forall|q: int| 0 <= q < bs2.len() implies wf_block(#[trigger] bs2[q]) by {
                if q != i {
                    assert(bs2[q] == bs[q]);
                }
            }
        }
    } else {
        assert(bs2 == bs);
        if blocks_model(bs).dom().contains(x) {
            lemma_blocks_model_sections(bs, x);
            let j = choose|j: int| 0 <= j < bs.len() && (#[trigger] bs[j]).1 == x.0;
            lemma_first_block_exists(bs, s, j);
        }
        assert(blocks_model(bs).remove(x) =~= blocks_model(bs));
    }
}

/// Setting a valid key of a canonical dump to a valid value sets exactly
/// that key: every other key keeps its value.
pub proof fn law_with_key_sets_exactly(d: Seq<char>, s: Seq<char>, k: Seq<char>, v: Seq<char>)
    requires
        canonical(d),
        valid_section(s),
        valid_entry(k, v),
    ensures
        dump_model(with_key_spec(d, s, k, v)) == dump_model(d).insert((s, k), v),
{
    lemma_with_key_blocks(d, s, k, v);
    lemma_render_model(with_key_blocks(blocks_of(d), s, k, v));
}

/// Dropping a key of a canonical dump unsets exactly that key.
pub proof fn law_without_key_drops_exactly(d: Seq<char>, s: Seq<char>, k: Seq<char>)
    requires
        canonical(d),
    ensures
        dump_model(without_key_spec(d, s, k)) == dump_model(d).remove((s, k)),
{
    lemma_without_key_blocks(d, s, k);
    lemma_render_model(without_key_blocks(blocks_of(d), s, k));
}


pub open spec fn cr_lines(ls: Seq<Seq<char>>) -> Seq<Seq<char>> {
    ls.map_values(|l: Seq<char>| strip_cr(l))
}

pub open spec fn cr_block(b: BlockV) -> BlockV {
    (strip_cr(b.0), b.1, cr_lines(b.2))
}

/// The blocks a rendering reads back as: the non-empty ones, each line
/// possibly losing a trailing `\r`.
pub open spec fn rendered_blocks(bs: Seq<BlockV>) -> Seq<BlockV>
    decreases bs.len(),
{
    if bs.len() == 0 {
        Seq::empty()
    } else if bs.last().2.len() > 0 {
        rendered_blocks(bs.drop_last()).push(cr_block(bs.last()))
    } else {
        rendered_blocks(bs.drop_last())
    }
}

proof fn lemma_cr_line(l: Seq<char>)
    ensures
        trim(strip_cr(l)) == trim(l),
        line_is_header(strip_cr(l)) == line_is_header(l),
        line_is_entry(strip_cr(l)) == line_is_entry(l),
        line_key(strip_cr(l)) == line_key(l),
        line_value(strip_cr(l)) == line_value(l),
{
    lemma_trim_strip_cr(l);
}

/// Blocks split where a header starts a new block.
pub proof fn lemma_blocks_concat(x: Seq<Seq<char>>, y: Seq<Seq<char>>)
    requires
        y.len() > 0,
        line_is_header(y[0]),
    ensures
        blocks_after(x + y) == blocks_after(x) + blocks_after(y),
    decreases y.len(),
{
    if y.len() == 1 {
        assert((x + y).drop_last() =~= x);
        assert((x + y).last() == y[0]);
        assert(y.drop_last() =~= Seq::<Seq<char>>::empty());
        assert(y.last() == y[0]);
        assert(blocks_after(x + y) =~= blocks_after(x) + blocks_after(y));
    } else {
        let y0 = y.drop_last();
        assert(y0[0] == y[0]);
        lemma_blocks_concat(x, y0);
        assert((x + y).drop_last() =~= x + y0);
        assert((x + y).last() == y.last());
        let l = y.last();
        let bx = blocks_after(x);
        let by0 = blocks_after(y0);
        lemma_blocks_nonempty(y0);
        if line_is_header(l) {
            assert(blocks_after(x + y) =~= blocks_after(x) + blocks_after(y));
        } else if trim(l).len() == 0 {
        } else {
            let both = bx + by0;
            assert(both.last() == by0.last());
            assert(both.update(both.len() - 1, (both.last().0, both.last().1, both.last().2.push(l)))
                =~= bx + by0.update(by0.len() - 1, (by0.last().0, by0.last().1, by0.last().2.push(l))));
        }
    }
}

proof fn lemma_blocks_nonempty(y: Seq<Seq<char>>)
    requires
        y.len() > 0,
        line_is_header(y[0]),
    ensures
        blocks_after(y).len() > 0,
    decreases y.len(),
{
    if y.len() > 1 {
        assert(y.drop_last()[0] == y[0]);
        lemma_blocks_nonempty(y.drop_last());
    } else {
        assert(y.last() == y[0]);
    }
}

proof fn lemma_block_reads_back(b: BlockV, n: int)
    requires
        wf_block(b),
        0 <= n <= b.2.len(),
    ensures
        blocks_after(cr_lines(seq![b.0] + b.2.take(n))) == seq![(strip_cr(b.0), b.1, cr_lines(b.2.take(n)))],
    decreases n,
{
    let xs = cr_lines(seq![b.0] + b.2.take(n));
    lemma_cr_line(b.0);
    if n == 0 {
        assert(b.2.take(0) =~= Seq::<Seq<char>>::empty());
        assert(xs =~= seq![strip_cr(b.0)]);
        assert(xs.drop_last() =~= Seq::<Seq<char>>::empty());
        assert(xs.last() == strip_cr(b.0));
        assert(blocks_after(xs.drop_last()) == Seq::<BlockV>::empty());
        assert(line_is_header(strip_cr(b.0)));
        assert(section_spec(trim(strip_cr(b.0))) == b.1);
        assert(cr_lines(b.2.take(n)) =~= Seq::<Seq<char>>::empty());
        assert(blocks_after(xs) =~= seq![(strip_cr(b.0), b.1, cr_lines(b.2.take(n)))]);
    } else {
        lemma_block_reads_back(b, n - 1);
        assert(xs.drop_last() =~= cr_lines(seq![b.0] + b.2.take(n - 1)));
        let l = b.2[n - 1];
        assert(wf_line(l));
        lemma_cr_line(l);
        assert(xs.last() == strip_cr(l));
        assert(cr_lines(b.2.take(n)) =~= cr_lines(b.2.take(n - 1)).push(strip_cr(l)));
        let prev = blocks_after(xs.drop_last());
        assert(prev.len() == 1);
        assert(prev.last() == (strip_cr(b.0), b.1, cr_lines(b.2.take(n - 1))));
        assert(!line_is_header(strip_cr(l)));
        assert(trim(strip_cr(l)).len() > 0);
        assert(blocks_after(xs) =~= seq![(strip_cr(b.0), b.1, cr_lines(b.2.take(n)))]);
    }
}

/// A rendering of well-formed blocks reads back as its non-empty blocks.
pub proof fn lemma_render_blocks(bs: Seq<BlockV>)
    requires
        wf_blocks(bs),
    ensures
        blocks_after(cr_lines(render_lines(bs))) == rendered_blocks(bs),
        render_lines(bs).len() > 0 ==> line_is_header(render_lines(bs)[0]),
    decreases bs.len(),
{
    if bs.len() > 0 {
        lemma_wf_prefix(bs);
        let pre = bs.drop_last();
        let b = bs.last();
        lemma_render_blocks(pre);
        let r0 = render_lines(pre);
        let bl = block_lines(b);
        assert(render_lines(bs) == r0 + bl);
        if b.2.len() == 0 {
            assert(r0 + bl =~= r0);
        } else {
            assert(cr_lines(r0 + bl) =~= cr_lines(r0) + cr_lines(bl));
            lemma_cr_line(b.0);
            assert(cr_lines(bl)[0] == strip_cr(b.0));
            lemma_blocks_concat(cr_lines(r0), cr_lines(bl));
            let hb = seq![b.0] + b.2;
            assert(bl == hb.push(Seq::<char>::empty()));
            assert(cr_lines(bl) =~= cr_lines(hb).push(Seq::<char>::empty()));
            lemma_block_reads_back(b, b.2.len() as int);
            assert(b.2.take(b.2.len() as int) =~= b.2);
            let e = Seq::<char>::empty();
            assert(cr_lines(bl).drop_last() =~= cr_lines(hb));
            assert(trim(e) =~= e);
            assert(blocks_after(cr_lines(bl)) == blocks_after(cr_lines(hb)));
            if r0.len() > 0 {
                assert((r0 + bl)[0] == r0[0]);
            } else {
                assert((r0 + bl)[0] == b.0);
            }
        }
    }
}

/// The blocks a rendering reads back as come from the rendered blocks.
pub proof fn lemma_rendered_from(bs: Seq<BlockV>)
    ensures
        forall|i: int|
            0 <= i < rendered_blocks(bs).len() ==> exists|j: int|
                0 <= j < bs.len() && #[trigger] rendered_blocks(bs)[i] == cr_block(bs[j]),
    decreases bs.len(),
{
    if bs.len() > 0 {
        let pre = bs.drop_last();
        lemma_rendered_from(pre);
        let rb = rendered_blocks(bs);
        let r0 = rendered_blocks(pre);
        assert forall|i: int| 0 <= i < rb.len() implies exists|j: int|
            0 <= j < bs.len() && #[trigger] rb[i] == cr_block(bs[j]) by {
            if i < r0.len() {
                let j = choose|j: int| 0 <= j < pre.len() && #[trigger] r0[i] == cr_block(pre[j]);
                assert(bs[j] == pre[j]);
                assert(rb[i] == r0[i]);
            } else {
                assert(rb[i] == cr_block(bs[bs.len() - 1]));
            }
        }
    }
}

proof fn lemma_rendered_canonical(bs: Seq<BlockV>)
    requires
        canonical_blocks(bs),
    ensures
        canonical_blocks(rendered_blocks(bs)),
    decreases bs.len(),
{
    if bs.len() > 0 {
        let pre = bs.drop_last();
        let b = bs.last();
        assert(canonical_blocks(pre)) by {
            assert forall|p: int, q: int| 0 <= p < q < pre.len() implies (#[trigger] pre[p]).1 != (
            #[trigger] pre[q]).1 by {
                assert(pre[p] == bs[p]);
                assert(pre[q] == bs[q]);
            }
            assert forall|i: int| 0 <= i < pre.len() implies unique_keys(#[trigger] pre[i].2) by {
                assert(pre[i] == bs[i]);
            }
        }
        lemma_rendered_canonical(pre);
        lemma_rendered_from(pre);
        let r0 = rendered_blocks(pre);
        let rb = rendered_blocks(bs);
        if b.2.len() > 0 {
            let cb = cr_block(b);
            assert(rb == r0.push(cb));
            assert(unique_keys(cb.2)) by {
                assert(unique_keys(bs[bs.len() - 1].2));
                assert forall|p: int, q: int|
                    0 <= p < q < cb.2.len() && line_is_entry(#[trigger] cb.2[p]) && line_is_entry(#[trigger] cb.2[q])
                        implies line_key(cb.2[p]) != line_key(cb.2[q]) by {
                    lemma_cr_line(b.2[p]);
                    lemma_cr_line(b.2[q]);
                }
            }
            assert forall|p: int, q: int| 0 <= p < q < rb.len() implies (#[trigger] rb[p]).1 != (
            #[trigger] rb[q]).1 by {
                if q < r0.len() {
                    assert(rb[p] == r0[p]);
                    assert(rb[q] == r0[q]);
                } else {
                    assert(rb[p] == r0[p]);
                    let j = choose|j: int| 0 <= j < pre.len() && #[trigger] r0[p] == cr_block(pre[j]);
                    assert(pre[j] == bs[j]);
                    assert(bs[bs.len() - 1] == b);
                }
            }
            assert forall|i: int| 0 <= i < rb.len() implies unique_keys(#[trigger] rb[i].2) by {
                if i < r0.len() {
                    assert(rb[i] == r0[i]);
                }
            }
        }
    }
}

/// A rendering of well-formed canonical blocks is a canonical dump.
pub proof fn lemma_render_canonical(bs: Seq<BlockV>)
    requires
        wf_blocks(bs),
        canonical_blocks(bs),
    ensures
        canonical(render_spec(bs)),
        blocks_of(render_spec(bs)) == rendered_blocks(bs),
{
    lemma_render_lines_model(bs, Seq::empty());
    lemma_render_blocks(bs);
    let r = render_lines(bs);
    let r1 = if r.len() > 0 {
        r.drop_last()
    } else {
        r
    };
    assert forall|i: int| 0 <= i < r1.len() implies no_nl(#[trigger] r1[i]) by {
        assert(r1[i] == r[i]);
    }
    lemma_lines_of_join(r1);
    let ls = lines_of(render_spec(bs));
    assert(ls == cr_lines(r1));
    if r.len() > 0 {
        let e = Seq::<char>::empty();
        assert(r1.push(e) =~= r);
        assert(cr_lines(r) =~= cr_lines(r1).push(e));
        assert(cr_lines(r).drop_last() =~= cr_lines(r1));
        assert(trim(e) =~= e);
        assert(blocks_after(cr_lines(r)) == blocks_after(cr_lines(r1)));
    } else {
        assert(cr_lines(r1) =~= cr_lines(r));
    }
    lemma_rendered_canonical(bs);
    assert(orphan_free(ls)) by {
        if ls.len() > 0 {
            lemma_cr_line(r1[0]);
            assert(r1[0] == r[0]);
            assert(line_is_header(ls[0]));
        }
    }
}


proof fn lemma_sub_keeps(x: Seq<char>, a: int, b: int, c: char)
    requires
        0 <= a <= b <= x.len(),
        !has_char(x, c),
    ensures
        !has_char(x.subrange(a, b), c),
{
    if has_char(x.subrange(a, b), c) {
        let j = choose|j: int| 0 <= j < x.subrange(a, b).len() && x.subrange(a, b)[j] == c;
        assert(x[a + j] == c);
    }
}

proof fn lemma_trim_keeps(x: Seq<char>, c: char)
    requires
        !has_char(x, c),
    ensures
        !has_char(trim(x), c),
{
    lemma_trim_ends(x);
    let (a, b) = choose|a: int, b: int| 0 <= a <= b <= x.len() && trim(x) == x.subrange(a, b);
    lemma_sub_keeps(x, a, b, c);
}

/// The key and value a `key=value` line sets make a valid entry.
pub proof fn lemma_line_entry_valid(l: Seq<char>)
    requires
        no_nl(l),
        line_is_entry(l),
    ensures
        valid_entry(line_key(l), line_value(l)),
{
    let t = trim(l);
    lemma_trim_keeps(l, '\n');
    crate::text::lemma_has_first(t, '=');
    let f = crate::text::first_index(t, '=');
    let kb = before(t, '=');
    let va = after(t, '=');
    let k = line_key(l);
    let v = line_value(l);
    lemma_sub_keeps(t, 0, f, '\n');
    lemma_sub_keeps(t, f + 1, t.len() as int, '\n');
    lemma_trim_keeps(kb, '\n');
    lemma_trim_keeps(va, '\n');
    assert(!has_char(kb, '=')) by {
        if has_char(kb, '=') {
            let j = choose|j: int| 0 <= j < kb.len() && kb[j] == '=';
            assert(t[j] == '=');
        }
    }
    lemma_trim_keeps(kb, '=');
    lemma_trim_ends(kb);
    lemma_trim_ends(va);
    lemma_trim_ends(l);
    assert(t.len() > 0);
    if k.len() > 0 && k[0] == '[' && v.len() > 0 && v.last() == ']' {
        assert(kb.len() > 0);
        assert(kb[0] == t[0]);
        assert(k[0] == kb[0]);
        assert(va.len() > 0);
        assert(va.last() == t.last());
        assert(v.last() == va.last());
        assert(is_header(t));
    }
    let e = entry_line(k, v);
    if is_header(e) {
        if k.len() == 0 {
            assert(e[0] == '=');
        } else if v.len() == 0 {
            assert(e.last() == '=');
        } else {
            assert(e[0] == k[0]);
            assert(e.last() == v.last());
        }
    }
}

/// Every key a reading sets, with its value, makes a valid entry.
pub proof fn lemma_model_valid(ls: Seq<Seq<char>>, s0: Seq<char>)
    requires
        forall|i: int| 0 <= i < ls.len() ==> no_nl(#[trigger] ls[i]),
    ensures
        forall|x: (Seq<char>, Seq<char>)| #[trigger]
            model_after(ls, s0, Map::empty()).dom().contains(x) ==> valid_entry(
                x.1,
                model_after(ls, s0, Map::empty())[x],
            ),
    decreases ls.len(),
{
    if ls.len() > 0 {
        let pre = ls.drop_last();
        assert forall|i: int| 0 <= i < pre.len() implies no_nl(#[trigger] pre[i]) by {
            assert(pre[i] == ls[i]);
        }
        lemma_model_valid(pre, s0);
        let l = ls.last();
        assert(ls[ls.len() - 1] == l);
        if line_is_entry(l) {
            lemma_line_entry_valid(l);
        }
        let m = model_after(ls, s0, Map::empty());
        let m0 = model_after(pre, s0, Map::empty());
        assert forall|x: (Seq<char>, Seq<char>)| #[trigger] m.dom().contains(x) implies valid_entry(
            x.1,
            m[x],
        ) by {
            if line_is_entry(l) && x == (section_after(pre, s0), line_key(l)) {
            } else {
                assert(m0.dom().contains(x));
                assert(m[x] == m0[x]);
            }
        }
    }
}

/// Setting `k` in lines that hold no other line with key `k` keeps keys
/// unique.
proof fn lemma_set_unique(ls: Seq<Seq<char>>, k: Seq<char>, e: Seq<char>)
    requires
        header_free(ls),
        unique_keys(ls),
        line_is_entry(e),
        line_key(e) == k,
    ensures
        unique_keys(set_in_lines(ls, k, e)),
{
    let r = set_in_lines(ls, k, e);
    if exists|j: int| first_with_key(ls, k, j) {
        let j = choose|j: int| first_with_key(ls, k, j);
        assert(line_is_entry(ls[j])) by {
            assert(!line_is_header(ls[j]));
        }
        assert forall|p: int, q: int|
            0 <= p < q < r.len() && line_is_entry(#[trigger] r[p]) && line_is_entry(#[trigger] r[q])
                implies line_key(r[p]) != line_key(r[q]) by {
            if p != j && q != j {
                assert(r[p] == ls[p]);
                assert(r[q] == ls[q]);
            } else if p == j {
                assert(r[q] == ls[q]);
            } else {
                assert(r[p] == ls[p]);
            }
        }
    } else {
        assert forall|p: int, q: int|
            0 <= p < q < r.len() && line_is_entry(#[trigger] r[p]) && line_is_entry(#[trigger] r[q])
                implies line_key(r[p]) != line_key(r[q]) by {
            if q < ls.len() {
                assert(r[p] == ls[p]);
                assert(r[q] == ls[q]);
            } else {
                assert(r[p] == ls[p]);
                if line_key(ls[p]) == k {
                    lemma_first_key_exists(ls, k, p);
                }
            }
        }
    }
}

proof fn lemma_first_key_exists(ls: Seq<Seq<char>>, k: Seq<char>, j: int)
    requires
        0 <= j < ls.len(),
        line_has_key(ls[j], k),
    ensures
        exists|i: int| first_with_key(ls, k, i),
    decreases j,
{
    if exists|q: int| 0 <= q < j && line_has_key(#[trigger] ls[q], k) {
        let q = choose|q: int| 0 <= q < j && line_has_key(#[trigger] ls[q], k);
        lemma_first_key_exists(ls, k, q);
    } else {
        assert(first_with_key(ls, k, j));
    }
}

/// Setting a valid key of a canonical dump leaves it canonical.
pub proof fn lemma_with_key_canonical(d: Seq<char>, s: Seq<char>, k: Seq<char>, v: Seq<char>)
    requires
        canonical(d),
        valid_section(s),
        valid_entry(k, v),
    ensures
        canonical(with_key_spec(d, s, k, v)),
{
    lemma_with_key_blocks(d, s, k, v);
    let bs = blocks_of(d);
    let bs2 = with_key_blocks(bs, s, k, v);
    let e = entry_line(k, v);
    lemma_entry_line(k, v);
    lemma_canonical_blocks(d);
    if exists|i: int| first_block(bs, s, i) {
        let i = choose|i: int| first_block(bs, s, i);
        let b = bs[i];
        lemma_wf_block_lines(b);
        lemma_set_unique(b.2, k, e);
        assert forall|p: int, q: int| 0 <= p < q < bs2.len() implies (#[trigger] bs2[p]).1 != (
        #[trigger] bs2[q]).1 by {
            assert(bs2[p].1 == bs[p].1);
            assert(bs2[q].1 == bs[q].1);
        }
        assert forall|q: int| 0 <= q < bs2.len() implies unique_keys(#[trigger] bs2[q].2) by {
            if q != i {
                assert(bs2[q] == bs[q]);
            }
        }
    } else {
        assert forall|p: int, q: int| 0 <= p < q < bs2.len() implies (#[trigger] bs2[p]).1 != (
        #[trigger] bs2[q]).1 by {
            if q == bs.len() {
                assert(bs2[p] == bs[p]);
                if bs[p].1 == s {
                    lemma_first_block_exists(bs, s, p);
                }
            } else {
                assert(bs2[p] == bs[p]);
                assert(bs2[q] == bs[q]);
            }
        }
        assert forall|q: int| 0 <= q < bs2.len() implies unique_keys(#[trigger] bs2[q].2) by {
            if q < bs.len() {
                assert(bs2[q] == bs[q]);
            } else {
                assert(bs2[q].2 == seq![e]);
            }
        }
    }
    lemma_render_canonical(bs2);
}

/// Dropping a key of a canonical dump leaves it canonical.
pub proof fn lemma_without_key_canonical(d: Seq<char>, s: Seq<char>, k: Seq<char>)
    requires
        canonical(d),
    ensures
        canonical(without_key_spec(d, s, k)),
{
    lemma_without_key_blocks(d, s, k);
    lemma_canonical_blocks(d);
    let bs = blocks_of(d);
    let bs2 = without_key_blocks(bs, s, k);
    if exists|i: int| first_block(bs, s, i) {
        let i = choose|i: int| first_block(bs, s, i);
        let b = bs[i];
        lemma_wf_block_lines(b);
        lemma_block_drop(b.2, s, k);
        assert forall|p: int, q: int| 0 <= p < q < bs2.len() implies (#[trigger] bs2[p]).1 != (
        #[trigger] bs2[q]).1 by {
            assert(bs2[p].1 == bs[p].1);
            assert(bs2[q].1 == bs[q].1);
        }
        assert forall|q: int| 0 <= q < bs2.len() implies unique_keys(#[trigger] bs2[q].2) by {
            if q != i {
                assert(bs2[q] == bs[q]);
            }
        }
    }
    lemma_render_canonical(bs2);
}


proof fn lemma_maps_by_lookup(a: DumpModel, b: DumpModel)
    requires
        forall|x: (Seq<char>, Seq<char>)| #[trigger] lookup(a, x) == lookup(b, x),
    ensures
        a == b,
{
    assert forall|x: (Seq<char>, Seq<char>)| a.dom().contains(x) <==> b.dom().contains(x) by {
        assert(lookup(a, x) == lookup(b, x));
    }
    assert forall|x: (Seq<char>, Seq<char>)| a.dom().contains(x) implies a[x] == b[x] by {
        assert(lookup(a, x) == lookup(b, x));
    }
    assert(a =~= b);
}

pub open spec fn in_keys(
    ds: Seq<(Seq<char>, Seq<char>, Option<Seq<char>>, Option<Seq<char>>)>,
    x: (Seq<char>, Seq<char>),
) -> bool {
    exists|i: int| 0 <= i < ds.len() && diff_key(#[trigger] ds[i]) == x
}

/// Absorbing differences one by one, each carrying the live value of its
/// key: the content stays canonical, each absorbed key takes its live value
/// and every other key keeps the file's.
pub proof fn lemma_absorb(
    f: Seq<char>,
    l: Seq<char>,
    ds: Seq<(Seq<char>, Seq<char>, Option<Seq<char>>, Option<Seq<char>>)>,
)
    requires
        canonical(f),
        forall|i: int| 0 <= i < ds.len() ==> (#[trigger] ds[i]).3 == lookup(dump_model(l), diff_key(ds[i])),
        forall|i: int| 0 <= i < ds.len() && (#[trigger] ds[i]).3 is Some ==> valid_section(ds[i].0),
    ensures
        canonical(absorbed_spec(f, ds)),
        forall|x: (Seq<char>, Seq<char>)| #[trigger] lookup(dump_model(absorbed_spec(f, ds)), x) == if in_keys(
            ds,
            x,
        ) {
            lookup(dump_model(l), x)
        } else {
            lookup(dump_model(f), x)
        },
    decreases ds.len(),
{
    if ds.len() > 0 {
        let pre = ds.drop_last();
        assert forall|i: int| 0 <= i < pre.len() implies (#[trigger] pre[i]).3 == lookup(dump_model(l), diff_key(pre[i])) by {
            assert(pre[i] == ds[i]);
        }
        assert forall|i: int| 0 <= i < pre.len() && (#[trigger] pre[i]).3 is Some implies valid_section(pre[i].0) by {
            assert(pre[i] == ds[i]);
        }
        lemma_absorb(f, l, pre);
        let prev = absorbed_spec(f, pre);
        let d = ds.last();
        assert(ds[ds.len() - 1] == d);
        let x = diff_key(d);
        let ml = dump_model(l);
        let now = absorbed_spec(f, ds);
        match d.3 {
            Some(v) => {
                assert(ml.dom().contains(x));
                lemma_lines_no_nl(l);
                lemma_model_valid(lines_of(l), Seq::empty());
                assert(valid_entry(x.1, v));
                law_with_key_sets_exactly(prev, d.0, d.1, v);
                lemma_with_key_canonical(prev, d.0, d.1, v);
            },
            None => {
                law_without_key_drops_exactly(prev, d.0, d.1);
                lemma_without_key_canonical(prev, d.0, d.1);
            },
        }
        assert forall|y: (Seq<char>, Seq<char>)| #[trigger] lookup(dump_model(now), y) == if in_keys(ds, y) {
            lookup(ml, y)
        } else {
            lookup(dump_model(f), y)
        } by {
            if y == x {
                assert(in_keys(ds, y)) by {
                    assert(diff_key(ds[ds.len() - 1]) == y);
                }
            } else {
                assert(lookup(dump_model(now), y) == lookup(dump_model(prev), y));
                if in_keys(ds, y) {
                    let i = choose|i: int| 0 <= i < ds.len() && diff_key(#[trigger] ds[i]) == y;
                    assert(i < pre.len());
                    assert(diff_key(pre[i]) == y);
                }
                if in_keys(pre, y) {
                    let i = choose|i: int| 0 <= i < pre.len() && diff_key(#[trigger] pre[i]) == y;
                    assert(diff_key(ds[i]) == y);
                }
            }
        }
    }
}

/// Absorbing every difference between a canonical snapshot file and a live
/// dump makes the file set exactly what live sets, so no drift remains.
pub proof fn law_absorbing_every_diff_clears_drift(
    f: Seq<char>,
    l: Seq<char>,
    ds: Seq<(Seq<char>, Seq<char>, Option<Seq<char>>, Option<Seq<char>>)>,
)
    requires
        canonical(f),
        is_diff_of(ds, dump_model(f), dump_model(l)),
        forall|i: int| 0 <= i < ds.len() && (#[trigger] ds[i]).3 is Some ==> valid_section(ds[i].0),
    ensures
        dump_model(absorbed_spec(f, ds)) == dump_model(l),
{
    assert forall|i: int| 0 <= i < ds.len() implies (#[trigger] ds[i]).3 == lookup(dump_model(l), diff_key(ds[i])) by {
        assert(diff_is_for(ds[i], dump_model(f), dump_model(l)));
    }
    lemma_absorb(f, l, ds);
    let out = dump_model(absorbed_spec(f, ds));
    assert forall|x: (Seq<char>, Seq<char>)| #[trigger] lookup(out, x) == lookup(dump_model(l), x) by {
        if !in_keys(ds, x) {
            if lookup(dump_model(f), x) != lookup(dump_model(l), x) {
                let i = choose|i: int| 0 <= i < ds.len() && diff_key(ds[i]) == x;
                assert(diff_key(ds[i]) == x);
            }
        }
    }
    lemma_maps_by_lookup(out, dump_model(l));
}

/// Models that agree have no difference.
pub proof fn law_equal_models_have_no_drift(
    r: Seq<(Seq<char>, Seq<char>, Option<Seq<char>>, Option<Seq<char>>)>,
    m: DumpModel,
)
    requires
        is_diff_of(r, m, m),
    ensures
        r.len() == 0,
{
    if r.len() > 0 {
        assert(diff_is_for(r[0], m, m));
    }
}

/// Absorbing some of the differences between a canonical file and a live
/// dump settles exactly those: the drift left is the rest, unchanged.
pub proof fn law_absorbing_a_subset_leaves_the_rest(
    f: Seq<char>,
    l: Seq<char>,
    ds: Seq<(Seq<char>, Seq<char>, Option<Seq<char>>, Option<Seq<char>>)>,
    sub: Seq<(Seq<char>, Seq<char>, Option<Seq<char>>, Option<Seq<char>>)>,
    rest: Seq<(Seq<char>, Seq<char>, Option<Seq<char>>, Option<Seq<char>>)>,
)
    requires
        canonical(f),
        is_diff_of(ds, dump_model(f), dump_model(l)),
        forall|i: int| 0 <= i < sub.len() ==> exists|j: int| 0 <= j < ds.len() && #[trigger] sub[i] == ds[j],
        forall|i: int| 0 <= i < sub.len() && (#[trigger] sub[i]).3 is Some ==> valid_section(sub[i].0),
        is_diff_of(rest, dump_model(absorbed_spec(f, sub)), dump_model(l)),
    ensures
        forall|i: int|
            0 <= i < rest.len() ==> !in_keys(sub, diff_key(#[trigger] rest[i])) && exists|j: int|
                0 <= j < ds.len() && rest[i] == ds[j],
        forall|j: int|
            0 <= j < ds.len() && !in_keys(sub, diff_key(#[trigger] ds[j])) ==> exists|i: int|
                0 <= i < rest.len() && rest[i] == ds[j],
{
    let mf = dump_model(f);
    let ml = dump_model(l);
    assert forall|i: int| 0 <= i < sub.len() implies (#[trigger] sub[i]).3 == lookup(ml, diff_key(sub[i])) by {
        let j = choose|j: int| 0 <= j < ds.len() && #[trigger] sub[i] == ds[j];
        assert(diff_is_for(ds[j], mf, ml));
    }
    lemma_absorb(f, l, sub);
    let out = dump_model(absorbed_spec(f, sub));
    assert forall|i: int|
        0 <= i < rest.len() implies !in_keys(sub, diff_key(#[trigger] rest[i])) && exists|j: int|
            0 <= j < ds.len() && rest[i] == ds[j] by {
        let x = diff_key(rest[i]);
        assert(diff_is_for(rest[i], out, ml));
        assert(lookup(out, x) != lookup(ml, x));
        assert(!in_keys(sub, x));
        assert(lookup(mf, x) != lookup(ml, x));
        let j = choose|j: int| 0 <= j < ds.len() && diff_key(ds[j]) == x;
        assert(diff_is_for(ds[j], mf, ml));
        assert(rest[i] == ds[j]);
    }
    assert forall|j: int|
        0 <= j < ds.len() && !in_keys(sub, diff_key(#[trigger] ds[j])) implies exists|i: int|
            0 <= i < rest.len() && rest[i] == ds[j] by {
        let x = diff_key(ds[j]);
        assert(diff_is_for(ds[j], mf, ml));
        assert(lookup(out, x) == lookup(mf, x));
        assert(lookup(out, x) != lookup(ml, x));
        let i = choose|i: int| 0 <= i < rest.len() && diff_key(rest[i]) == x;
        assert(diff_is_for(rest[i], out, ml));
        assert(rest[i] == ds[j]);
    }
}


proof fn lemma_kept(ls: Seq<Seq<char>>, s: Seq<char>, pats: Seq<Seq<char>>)
    ensures
        forall|i: int|
            0 <= i < kept_lines(ls, s, pats).len() ==> exists|j: int|
                0 <= j < ls.len() && #[trigger] kept_lines(ls, s, pats)[i] == ls[j],
        forall|i: int|
            0 <= i < kept_lines(ls, s, pats).len() && line_is_entry(#[trigger] kept_lines(ls, s, pats)[i])
                ==> !stripped(key_id_spec(s, line_key(kept_lines(ls, s, pats)[i])), pats),
    decreases ls.len(),
{
    if ls.len() > 0 {
        let pre = ls.drop_last();
        lemma_kept(pre, s, pats);
        let k0 = kept_lines(pre, s, pats);
        let k = kept_lines(ls, s, pats);
        assert(ls[ls.len() - 1] == ls.last());
        assert forall|i: int| 0 <= i < k.len() implies exists|j: int| 0 <= j < ls.len() && #[trigger] k[i] == ls[j] by {
            if i < k0.len() {
                assert(k[i] == k0[i]);
                let j = choose|j: int| 0 <= j < pre.len() && #[trigger] k0[i] == pre[j];
                assert(pre[j] == ls[j]);
            }
        }
        assert forall|i: int| 0 <= i < k.len() && line_is_entry(#[trigger] k[i]) implies !stripped(
            key_id_spec(s, line_key(k[i])),
            pats,
        ) by {
            if i < k0.len() {
                assert(k[i] == k0[i]);
            }
        }
    }
}

proof fn lemma_blocks_model_from(bs: Seq<BlockV>, x: (Seq<char>, Seq<char>))
    requires
        blocks_model(bs).dom().contains(x),
    ensures
        exists|i: int| 0 <= i < bs.len() && block_entries(#[trigger] bs[i]).dom().contains(x),
    decreases bs.len(),
{
    if block_entries(bs.last()).dom().contains(x) {
        assert(bs[bs.len() - 1] == bs.last());
    } else {
        lemma_blocks_model_from(bs.drop_last(), x);
        let i = choose|i: int| 0 <= i < bs.drop_last().len() && block_entries(#[trigger] bs.drop_last()[i]).dom().contains(x);
        assert(bs[i] == bs.drop_last()[i]);
    }
}

/// No key a stripped dump sets has an id that contains a strip pattern.
pub proof fn law_stripped_keys_never_set(d: Seq<char>, pats: Seq<Seq<char>>)
    ensures
        forall|x: (Seq<char>, Seq<char>)| #[trigger]
            dump_model(strip_spec(d, pats)).dom().contains(x) ==> !stripped(key_id_spec(x.0, x.1), pats),
{
    lemma_lines_no_nl(d);
    lemma_blocks_after(lines_of(d), Seq::empty());
    let bs = blocks_of(d);
    let bk = bs.map_values(|b: BlockV| (b.0, b.1, kept_lines(b.2, b.1, pats)));
    assert forall|i: int| 0 <= i < bk.len() implies wf_block(#[trigger] bk[i]) by {
        let b = bs[i];
        assert(wf_block(b));
        lemma_kept(b.2, b.1, pats);
        let k = kept_lines(b.2, b.1, pats);
        assert forall|q: int| 0 <= q < k.len() implies wf_line(#[trigger] k[q]) by {
            let j = choose|j: int| 0 <= j < b.2.len() && #[trigger] k[q] == b.2[j];
            assert(wf_line(b.2[j]));
        }
    }
    lemma_render_model(bk);
    assert forall|x: (Seq<char>, Seq<char>)| #[trigger]
        dump_model(strip_spec(d, pats)).dom().contains(x) implies !stripped(key_id_spec(x.0, x.1), pats) by {
        lemma_blocks_model_from(bk, x);
        let i = choose|i: int| 0 <= i < bk.len() && block_entries(#[trigger] bk[i]).dom().contains(x);
        let b = bk[i];
        assert(wf_block(b));
        lemma_wf_block_lines(b);
        lemma_block_keys(b.2, b.1);
        lemma_kept(bs[i].2, bs[i].1, pats);
        let j = choose|j: int| 0 <= j < b.2.len() && line_is_entry(b.2[j]) && line_key(b.2[j]) == x.1;
        assert(line_is_entry(b.2[j]));
    }
}

/// Drift between two dumps filtered through the same patterns never reports
/// a key those patterns strip.
pub proof fn law_stripped_keys_never_drift(
    f: Seq<char>,
    l: Seq<char>,
    pats: Seq<Seq<char>>,
    r: Seq<(Seq<char>, Seq<char>, Option<Seq<char>>, Option<Seq<char>>)>,
)
    requires
        is_diff_of(r, dump_model(strip_spec(f, pats)), dump_model(strip_spec(l, pats))),
    ensures
        forall|i: int| 0 <= i < r.len() ==> !stripped(key_id_spec((#[trigger] r[i]).0, r[i].1), pats),
{
    law_stripped_keys_never_set(f, pats);
    law_stripped_keys_never_set(l, pats);
    assert forall|i: int| 0 <= i < r.len() implies !stripped(key_id_spec((#[trigger] r[i]).0, r[i].1), pats) by {
        let x = diff_key(r[i]);
        assert(diff_is_for(r[i], dump_model(strip_spec(f, pats)), dump_model(strip_spec(l, pats))));
        if dump_model(strip_spec(f, pats)).dom().contains(x) {
        } else {
            assert(dump_model(strip_spec(l, pats)).dom().contains(x));
        }
    }
}

/// A model without the keys whose ids contain a pattern.
pub open spec fn unstripped(m: DumpModel, pats: Seq<Seq<char>>) -> DumpModel {
    m.restrict(m.dom().filter(|x: (Seq<char>, Seq<char>)| !stripped(key_id_spec(x.0, x.1), pats)))
}

proof fn lemma_unstripped_insert(m: DumpModel, pats: Seq<Seq<char>>, k: (Seq<char>, Seq<char>), v: Seq<char>)
    ensures
        stripped(key_id_spec(k.0, k.1), pats) ==> unstripped(m.insert(k, v), pats) == unstripped(m, pats),
        !stripped(key_id_spec(k.0, k.1), pats) ==> unstripped(m.insert(k, v), pats) == unstripped(m, pats).insert(k, v),
{
    if stripped(key_id_spec(k.0, k.1), pats) {
        assert(unstripped(m.insert(k, v), pats) =~= unstripped(m, pats));
    } else {
        assert(unstripped(m.insert(k, v), pats) =~= unstripped(m, pats).insert(k, v));
    }
}

proof fn lemma_unstripped_union(a: DumpModel, b: DumpModel, pats: Seq<Seq<char>>)
    ensures
        unstripped(a.union_prefer_right(b), pats) == unstripped(a, pats).union_prefer_right(unstripped(b, pats)),
{
    assert(unstripped(a.union_prefer_right(b), pats) =~= unstripped(a, pats).union_prefer_right(unstripped(b, pats)));
}

/// The kept lines of a block set what the block sets, less the stripped keys.
proof fn lemma_kept_entries(ls: Seq<Seq<char>>, s: Seq<char>, pats: Seq<Seq<char>>)
    requires
        forall|i: int| 0 <= i < ls.len() ==> !line_is_header(#[trigger] ls[i]),
    ensures
        model_after(kept_lines(ls, s, pats), s, Map::empty()) == unstripped(model_after(ls, s, Map::empty()), pats),
    decreases ls.len(),
{
    if ls.len() == 0 {
        assert(unstripped(Map::<(Seq<char>, Seq<char>), Seq<char>>::empty(), pats) =~= Map::empty());
    } else {
        let pre = ls.drop_last();
        let l = ls.last();
        assert forall|i: int| 0 <= i < pre.len() implies !line_is_header(#[trigger] pre[i]) by {
            assert(pre[i] == ls[i]);
        }
        assert(!line_is_header(ls[ls.len() - 1]));
        lemma_kept_entries(pre, s, pats);
        lemma_section_kept(pre, s);
        let k0 = kept_lines(pre, s, pats);
        lemma_kept(pre, s, pats);
        assert forall|i: int| 0 <= i < k0.len() implies !line_is_header(#[trigger] k0[i]) by {
            let j = choose|j: int| 0 <= j < pre.len() && #[trigger] k0[i] == pre[j];
        }
        lemma_section_kept(k0, s);
        let m = model_after(pre, s, Map::empty());
        if line_is_entry(l) {
            lemma_unstripped_insert(m, pats, (s, line_key(l)), line_value(l));
            if !stripped(key_id_spec(s, line_key(l)), pats) {
                assert(kept_lines(ls, s, pats).drop_last() =~= k0);
            }
        } else {
            assert(kept_lines(ls, s, pats).drop_last() =~= k0);
        }
    }
}

proof fn lemma_blocks_unstripped(bs: Seq<BlockV>, pats: Seq<Seq<char>>)
    requires
        wf_blocks(bs),
    ensures
        blocks_model(bs.map_values(|b: BlockV| (b.0, b.1, kept_lines(b.2, b.1, pats)))) == unstripped(blocks_model(bs), pats),
    decreases bs.len(),
{
    let bk = bs.map_values(|b: BlockV| (b.0, b.1, kept_lines(b.2, b.1, pats)));
    if bs.len() == 0 {
        assert(unstripped(Map::<(Seq<char>, Seq<char>), Seq<char>>::empty(), pats) =~= Map::empty());
    } else {
        let pre = bs.drop_last();
        assert forall|i: int| 0 <= i < pre.len() implies wf_block(#[trigger] pre[i]) by {
            assert(pre[i] == bs[i]);
        }
        lemma_blocks_unstripped(pre, pats);
        assert(bk.drop_last() =~= pre.map_values(|b: BlockV| (b.0, b.1, kept_lines(b.2, b.1, pats))));
        let b = bs.last();
        assert(wf_block(bs[bs.len() - 1]));
        assert forall|i: int| 0 <= i < b.2.len() implies !line_is_header(#[trigger] b.2[i]) by {
            assert(wf_line(b.2[i]));
        }
        lemma_kept_entries(b.2, b.1, pats);
        assert(bk.last() == (b.0, b.1, kept_lines(b.2, b.1, pats)));
        lemma_unstripped_union(blocks_model(pre), block_entries(b), pats);
    }
}

/// Stripping a dump whose every `key=value` line stands under a header sets
/// exactly what the dump sets, less the keys whose ids contain a pattern.
pub proof fn law_stripping_drops_exactly_the_stripped_keys(d: Seq<char>, pats: Seq<Seq<char>>)
    requires
        orphan_free(lines_of(d)),
    ensures
        dump_model(strip_spec(d, pats)) == unstripped(dump_model(d), pats),
{
    lemma_lines_no_nl(d);
    lemma_blocks_after(lines_of(d), Seq::empty());
    let bs = blocks_of(d);
    let bk = bs.map_values(|b: BlockV| (b.0, b.1, kept_lines(b.2, b.1, pats)));
    assert forall|i: int| 0 <= i < bk.len() implies wf_block(#[trigger] bk[i]) by {
        let b = bs[i];
        assert(wf_block(b));
        lemma_kept(b.2, b.1, pats);
        let k = kept_lines(b.2, b.1, pats);
        assert forall|q: int| 0 <= q < k.len() implies wf_line(#[trigger] k[q]) by {
            let j = choose|j: int| 0 <= j < b.2.len() && #[trigger] k[q] == b.2[j];
            assert(wf_line(b.2[j]));
        }
    }
    lemma_render_model(bk);
    lemma_blocks_unstripped(bs, pats);
}

proof fn lemma_flatten_prefix<A>(gs: Seq<(Seq<char>, Seq<A>)>, a: int, b: int)
    requires
        0 <= a <= b <= gs.len(),
    ensures
        flatten(gs.take(a)).len() <= flatten(gs.take(b)).len(),
        forall|i: int| 0 <= i < flatten(gs.take(a)).len() ==> #[trigger] flatten(gs.take(b))[i] == flatten(gs.take(a))[i],
    decreases b - a,
{
    if a < b {
        lemma_flatten_prefix(gs, a, b - 1);
        assert(gs.take(b).drop_last() =~= gs.take(b - 1));
    }
}

proof fn lemma_member_at<A>(gs: Seq<(Seq<char>, Seq<A>)>, g: int, m: int)
    requires
        0 <= g < gs.len(),
        0 <= m < gs[g].1.len(),
    ensures
        flatten(gs.take(g)).len() + m < flatten(gs.take(g + 1)).len(),
        flatten(gs.take(g + 1)).len() <= flatten(gs).len(),
        flatten(gs)[flatten(gs.take(g)).len() + m] == gs[g].1[m],
{
    assert(gs.take(g + 1).drop_last() =~= gs.take(g));
    assert(gs.take(g + 1).last() == gs[g]);
    let i = flatten(gs.take(g)).len() + m;
    assert(flatten(gs.take(g + 1))[i] == gs[g].1[m]);
    lemma_flatten_prefix(gs, g + 1, gs.len() as int);
    assert(gs.take(gs.len() as int) =~= gs);
}

/// Diffs in section-and-key order (as a diff of two dumps comes) fall into
/// one group per section: grouped as `group_by_section` groups them, no two
/// groups share a name.
pub proof fn law_sorted_diffs_group_once_per_section(
    ds: Seq<(Seq<char>, Seq<char>, Option<Seq<char>>, Option<Seq<char>>)>,
    gs: Seq<(Seq<char>, Seq<(Seq<char>, Seq<char>, Option<Seq<char>>, Option<Seq<char>>)>)>,
)
    requires
        forall|i: int, j: int| 0 <= i < j < ds.len() ==> key_lt(diff_key(#[trigger] ds[i]), diff_key(#[trigger] ds[j])),
        flatten(gs) == ds,
        forall|g: int| 0 <= g < gs.len() ==> (#[trigger] gs[g]).1.len() > 0,
        forall|g: int, m: int| 0 <= g < gs.len() && 0 <= m < gs[g].1.len() ==> (#[trigger] gs[g].1[m]).0 == gs[g].0,
        forall|g: int| 0 <= g < gs.len() - 1 ==> (#[trigger] gs[g]).0 != gs[g + 1].0,
    ensures
        forall|g: int, h: int| 0 <= g < h < gs.len() ==> (#[trigger] gs[g]).0 != (#[trigger] gs[h]).0,
{
    assert forall|g: int, h: int| 0 <= g < h < gs.len() implies (#[trigger] gs[g]).0 != (#[trigger] gs[h]).0 by {
        if gs[g].0 == gs[h].0 && h > g + 1 {
            let s = gs[g].0;
            let t = gs[g + 1].0;
            lemma_member_at(gs, g, 0);
            lemma_member_at(gs, g + 1, 0);
            lemma_member_at(gs, h, 0);
            lemma_flatten_prefix(gs, g + 1, h);
            lemma_flatten_prefix(gs, g + 2, h);
            lemma_member_at(gs, g + 1, 0);
            let x: int = flatten(gs.take(g)).len() as int;
            let y: int = flatten(gs.take(g + 1)).len() as int;
            let z: int = flatten(gs.take(h)).len() as int;
            assert(gs.take(g + 2).drop_last() =~= gs.take(g + 1));
            assert(ds[x] == gs[g].1[0]);
            assert(ds[y] == gs[g + 1].1[0]);
            assert(ds[z] == gs[h].1[0]);
            assert(x < y);
            assert(y < z);
            assert(key_lt(diff_key(ds[x]), diff_key(ds[y])));
            assert(key_lt(diff_key(ds[y]), diff_key(ds[z])));
            assert(ds[x].0 == s && ds[z].0 == s && ds[y].0 == t);
            assert(s != t);
            crate::text::lemma_lex_total(s, t);
        }
    }
}

proof fn lemma_render_headers_lead(bs: Seq<BlockV>)
    requires
        wf_blocks(bs),
    ensures
        forall|i: int| 0 <= i < render_lines(bs).len() ==> no_nl(#[trigger] render_lines(bs)[i]),
        forall|i: int|
            0 <= i < render_lines(bs).len() && line_is_header(#[trigger] render_lines(bs)[i]) ==> i + 1 < render_lines(
                bs,
            ).len() && trim(render_lines(bs)[i + 1]).len() > 0,
        render_lines(bs).len() > 0 ==> render_lines(bs).last().len() == 0,
    decreases bs.len(),
{
    if bs.len() > 0 {
        let pre = bs.drop_last();
        assert forall|i: int| 0 <= i < pre.len() implies wf_block(#[trigger] pre[i]) by {
            assert(pre[i] == bs[i]);
        }
        lemma_render_headers_lead(pre);
        let b = bs[bs.len() - 1];
        assert(wf_block(b));
        let r0 = render_lines(pre);
        let bl = block_lines(b);
        let r = render_lines(bs);
        assert(r == r0 + bl);
        let e = Seq::<char>::empty();
        assert(trim(e) =~= e) by {
            reveal_with_fuel(crate::text::trim_end, 2);
            reveal_with_fuel(crate::text::trim_start, 2);
        }
        assert forall|i: int| 0 <= i < r.len() implies no_nl(#[trigger] r[i]) by {
            if i < r0.len() {
                assert(r[i] == r0[i]);
            } else if b.2.len() > 0 {
                let k = i - r0.len();
                assert(r[i] == bl[k]);
                if 1 <= k <= b.2.len() {
                    assert(bl[k] == b.2[k - 1]);
                    assert(wf_line(b.2[k - 1]));
                }
            }
        }
        assert forall|i: int| 0 <= i < r.len() && line_is_header(#[trigger] r[i]) implies i + 1 < r.len() && trim(r[i + 1]).len() > 0 by {
            if i < r0.len() {
                assert(r[i] == r0[i]);
                assert(r[i + 1] == r0[i + 1]);
            } else {
                let k = i - r0.len();
                assert(b.2.len() > 0);
                assert(r[i] == bl[k]);
                if k == 0 {
                    assert(bl[1] == b.2[0]);
                    assert(wf_line(b.2[0]));
                    assert(r[i + 1] == bl[1]);
                } else if k <= b.2.len() {
                    assert(bl[k] == b.2[k - 1]);
                    assert(wf_line(b.2[k - 1]));
                } else {
                    assert(bl[k] == e);
                }
            }
        }
        if b.2.len() > 0 {
            assert(r.last() == bl.last());
        } else {
            assert(bl =~= Seq::<Seq<char>>::empty());
            assert(r =~= r0);
        }
    }
}

/// Stripping never leaves an empty section behind: in the filtered dump,
/// every section header is directly followed by a line that is not blank.
pub proof fn law_stripping_leaves_no_empty_section(d: Seq<char>, pats: Seq<Seq<char>>)
    ensures
        forall|i: int|
            0 <= i < lines_of(strip_spec(d, pats)).len() && line_is_header(#[trigger] lines_of(strip_spec(d, pats))[i])
                ==> i + 1 < lines_of(strip_spec(d, pats)).len() && trim(lines_of(strip_spec(d, pats))[i + 1]).len() > 0,
{
    lemma_lines_no_nl(d);
    lemma_blocks_after(lines_of(d), Seq::empty());
    let bs = blocks_of(d);
    let bk = bs.map_values(|b: BlockV| (b.0, b.1, kept_lines(b.2, b.1, pats)));
    assert forall|i: int| 0 <= i < bk.len() implies wf_block(#[trigger] bk[i]) by {
        let b = bs[i];
        assert(wf_block(b));
        lemma_kept(b.2, b.1, pats);
        let k = kept_lines(b.2, b.1, pats);
        assert forall|q: int| 0 <= q < k.len() implies wf_line(#[trigger] k[q]) by {
            let j = choose|j: int| 0 <= j < b.2.len() && #[trigger] k[q] == b.2[j];
            assert(wf_line(b.2[j]));
        }
    }
    lemma_render_headers_lead(bk);
    let r = render_lines(bk);
    let r1 = if r.len() > 0 {
        r.drop_last()
    } else {
        r
    };
    assert forall|i: int| 0 <= i < r1.len() implies no_nl(#[trigger] r1[i]) by {
        assert(r1[i] == r[i]);
    }
    lemma_lines_of_join(r1);
    let ls = lines_of(strip_spec(d, pats));
    assert(strip_spec(d, pats) == render_spec(bk));
    assert(ls == cr_lines(r1));
    assert forall|i: int| 0 <= i < ls.len() && line_is_header(#[trigger] ls[i]) implies i + 1 < ls.len() && trim(ls[i + 1]).len() > 0 by {
        assert(ls[i] == strip_cr(r1[i]));
        lemma_cr_line(r1[i]);
        assert(r1[i] == r[i]);
        assert(line_is_header(r[i]));
        assert(trim(r[i + 1]).len() > 0);
        assert(i + 1 != r.len() - 1);
        assert(r1[i + 1] == r[i + 1]);
        assert(ls[i + 1] == strip_cr(r1[i + 1]));
        lemma_cr_line(r1[i + 1]);
    }
}

} // verus!
