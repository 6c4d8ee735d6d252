//! Whole-desktop dconf snapshots: the text of a `dconf dump`, filtered,
//! parsed, diffed against live state and edited key by key.
//!
//! A dump is a sequence of `[section]` headers, each followed by `key=value`
//! lines. Its meaning is `dump_model`: the map from `(section, key)` to value
//! that reading the lines in order builds (a later line for the same key wins).
use vstd::prelude::*;
use crate::text::{
    after, before, chars_of, find_char, has_char, is_first, join_nl, lemma_first_unique, lemma_lex_irrefl,
    lemma_lex_total, lemma_lex_trans, lex_less, lex_lt, lines, lines_of, push_chars, same, copy_chars, lemma_views_push, contains, contains_exec,
    slice, string_of, strip_lead, strip_trail, trim, trimmed, views,
};

verus! {

/// A `(section, key)` pair of a dump.
pub type DumpKey = (Seq<char>, Seq<char>);

/// What a dump means: each `(section, key)` it sets, with its value.
pub type DumpModel = Map<(Seq<char>, Seq<char>), Seq<char>>;

/// A trimmed line that is a `[…]` section header.
pub open spec fn is_header(t: Seq<char>) -> bool {
    t.len() > 0 && t[0] == '[' && t.last() == ']'
}

/// The relative section path a trimmed `[…]` header denotes: brackets and
/// surrounding slashes dropped, so the dump root `[/]` is `""`.
pub open spec fn section_spec(t: Seq<char>) -> Seq<char> {
    strip_trail(strip_lead(strip_trail(strip_lead(t, '['), ']'), '/'), '/')
}

pub open spec fn line_is_header(l: Seq<char>) -> bool {
    is_header(trim(l))
}

/// A `key=value` line (any non-header line holding `=`).
pub open spec fn line_is_entry(l: Seq<char>) -> bool {
    !is_header(trim(l)) && has_char(trim(l), '=')
}

pub open spec fn line_key(l: Seq<char>) -> Seq<char> {
    trim(before(trim(l), '='))
}

pub open spec fn line_value(l: Seq<char>) -> Seq<char> {
    trim(after(trim(l), '='))
}

/// The section in effect after reading `ls`, starting in `s0`.
pub open spec fn section_after(ls: Seq<Seq<char>>, s0: Seq<char>) -> Seq<char>
    decreases ls.len(),
{
    if ls.len() == 0 {
        s0
    } else if line_is_header(ls.last()) {
        section_spec(trim(ls.last()))
    } else {
        section_after(ls.drop_last(), s0)
    }
}

/// The map after reading `ls`, starting in section `s0` with map `m0`.
pub open spec fn model_after(ls: Seq<Seq<char>>, s0: Seq<char>, m0: DumpModel) -> DumpModel
    decreases ls.len(),
{
    if ls.len() == 0 {
        m0
    } else {
        let m = model_after(ls.drop_last(), s0, m0);
        let l = ls.last();
        if line_is_entry(l) {
            m.insert((section_after(ls.drop_last(), s0), line_key(l)), line_value(l))
        } else {
            m
        }
    }
}

/// What a dump sets: read its lines in order, from the root section.
pub open spec fn dump_model(d: Seq<char>) -> DumpModel {
    model_after(lines_of(d), Seq::empty(), Map::empty())
}

/// `section/key`, or the bare `key` at the dump root.
pub open spec fn key_id_spec(section: Seq<char>, key: Seq<char>) -> Seq<char> {
    if section.len() == 0 {
        key
    } else {
        section + seq!['/'] + key
    }
}

/// The value a model holds for `k`, if any.
pub open spec fn lookup(m: DumpModel, k: DumpKey) -> Option<Seq<char>> {
    if m.dom().contains(k) {
        Some(m[k])
    } else {
        None
    }
}

pub open spec fn key_lt(a: DumpKey, b: DumpKey) -> bool {
    lex_lt(a.0, b.0) || (a.0 == b.0 && lex_lt(a.1, b.1))
}

pub proof fn lemma_key_order(a: DumpKey, b: DumpKey, c: DumpKey)
    ensures
        !key_lt(a, a),
        a == b || key_lt(a, b) || key_lt(b, a),
        !(key_lt(a, b) && key_lt(b, a)),
        key_lt(a, b) && key_lt(b, c) ==> key_lt(a, c),
{
    lemma_lex_irrefl(a.0);
    lemma_lex_irrefl(a.1);
    lemma_lex_total(a.0, b.0);
    lemma_lex_total(a.1, b.1);
    lemma_lex_irrefl(b.0);
    if key_lt(a, b) && key_lt(b, c) {
        if lex_lt(a.0, b.0) && lex_lt(b.0, c.0) {
            lemma_lex_trans(a.0, b.0, c.0);
        }
        if a.1 != c.1 && lex_lt(a.1, b.1) && lex_lt(b.1, c.1) {
            lemma_lex_trans(a.1, b.1, c.1);
        }
    }
}

pub open spec fn ekey(e: (Seq<char>, Seq<char>, Seq<char>)) -> DumpKey {
    (e.0, e.1)
}

/// Entries ordered strictly by `(section, key)`: sorted, no key twice.
pub open spec fn strictly_sorted(es: Seq<(Seq<char>, Seq<char>, Seq<char>)>) -> bool {
    forall|i: int, j: int| 0 <= i < j < es.len() ==> key_lt(ekey(es[i]), ekey(es[j]))
}

pub open spec fn has_key(es: Seq<(Seq<char>, Seq<char>, Seq<char>)>, k: DumpKey) -> bool {
    exists|i: int| 0 <= i < es.len() && ekey(es[i]) == k
}

/// The map a list of entries denotes.
pub open spec fn model_of(es: Seq<(Seq<char>, Seq<char>, Seq<char>)>) -> DumpModel {
    Map::new(
        |k: DumpKey| has_key(es, k),
        |k: DumpKey| es[choose|i: int| 0 <= i < es.len() && ekey(es[i]) == k].2,
    )
}

pub proof fn lemma_sorted_distinct(es: Seq<(Seq<char>, Seq<char>, Seq<char>)>, i: int, j: int)
    requires
        strictly_sorted(es),
        0 <= i < es.len(),
        0 <= j < es.len(),
        i != j,
    ensures
        ekey(es[i]) != ekey(es[j]),
{
    lemma_key_order(ekey(es[i]), ekey(es[j]), ekey(es[j]));
}

pub proof fn lemma_model_lookup(es: Seq<(Seq<char>, Seq<char>, Seq<char>)>, i: int)
    requires
        strictly_sorted(es),
        0 <= i < es.len(),
    ensures
        model_of(es).dom().contains(ekey(es[i])),
        model_of(es)[ekey(es[i])] == es[i].2,
{
    let k = ekey(es[i]);
    assert(has_key(es, k));
    let j = choose|j: int| 0 <= j < es.len() && ekey(es[j]) == k;
    if j != i {
        lemma_sorted_distinct(es, i, j);
    }
}

/// A parsed dump: its entries, ordered by `(section, key)`.
pub struct DumpMap {
    entries: Vec<(Vec<char>, Vec<char>, Vec<char>)>,
}

impl View for DumpMap {
    type V = Seq<(Seq<char>, Seq<char>, Seq<char>)>;

    closed spec fn view(&self) -> Seq<(Seq<char>, Seq<char>, Seq<char>)> {
        self.entries@.map_values(
            |e: (Vec<char>, Vec<char>, Vec<char>)| (e.0@, e.1@, e.2@),
        )
    }
}

impl DumpMap {
    #[verifier::type_invariant]
    spec fn sorted_inv(self) -> bool {
        strictly_sorted(self@)
    }

    /// The map the entries denote.
    pub open spec fn model(&self) -> DumpModel {
        model_of(self@)
    }

    pub fn new() -> (m: DumpMap)
        ensures
            m@.len() == 0,
            m.model() == Map::<DumpKey, Seq<char>>::empty(),
    {
        let m = DumpMap { entries: Vec::new() };
        assert(m.model() =~= Map::<DumpKey, Seq<char>>::empty());
        m
    }

    /// Number of keys.
    pub fn len(&self) -> (n: usize)
        ensures
            n == self@.len(),
    {
        self.entries.len()
    }

    /// The value held for `(section, key)`.
    pub fn get(&self, k: &(String, String)) -> (r: Option<String>)
        ensures
            r matches Some(v) ==> lookup(self.model(), (k.0@, k.1@)) == Some(v@),
            r is None ==> lookup(self.model(), (k.0@, k.1@)) is None,
    {
        proof {
            use_type_invariant(self);
        }
        let s = chars_of(k.0.as_str());
        let key = chars_of(k.1.as_str());
        let mut i: usize = 0;
        while i < self.entries.len()
            invariant
                i <= self.entries@.len(),
                self@.len() == self.entries@.len(),
                strictly_sorted(self@),
                s@ == k.0@,
                key@ == k.1@,
                forall|j: int| 0 <= j < i ==> ekey(#[trigger] self@[j]) != (s@, key@),
            decreases self.entries.len() - i,
        {
            let e = &self.entries[i];
            if same(e.0.as_slice(), s.as_slice()) && same(e.1.as_slice(), key.as_slice()) {
                proof {
                    assert(self@[i as int] == (e.0@, e.1@, e.2@));
                    assert(ekey(self@[i as int]) == (s@, key@));
                    assert(s@ == k.0@);
                    assert(key@ == k.1@);
                    lemma_model_lookup(self@, i as int);
                    assert(lookup(self.model(), (k.0@, k.1@)) == Some(e.2@));
                }
                let r = string_of(e.2.as_slice());
                return Some(r);
            }
            i += 1;
        }
        assert(!self.model().dom().contains((s@, key@)));
        None
    }

    /// Sets `(section, key)` to `value` (a later write wins, as in the map a
    /// dump denotes).
    fn insert(self, section: Vec<char>, key: Vec<char>, value: Vec<char>) -> (r: DumpMap)
        ensures
            r.model() == self.model().insert((section@, key@), value@),
    {
        proof {
            use_type_invariant(&self);
        }
        let ghost k: DumpKey = (section@, key@);
        let ghost old_es = self@;
        let mut entries = self.entries;
        let mut p: usize = 0;
        while p < entries.len() && key_less(
            entries[p].0.as_slice(),
            entries[p].1.as_slice(),
            section.as_slice(),
            key.as_slice(),
        )
            invariant
                p <= entries@.len(),
                entries@.map_values(|e: (Vec<char>, Vec<char>, Vec<char>)| (e.0@, e.1@, e.2@)) == old_es,
                strictly_sorted(old_es),
                k == (section@, key@),
                forall|j: int| 0 <= j < p ==> key_lt(ekey(#[trigger] old_es[j]), k),
            decreases entries.len() - p,
        {
            p += 1;
        }
        let exists_at = p < entries.len() && same(entries[p].0.as_slice(), section.as_slice())
            && same(entries[p].1.as_slice(), key.as_slice());
        let ghost e_new = (section@, key@, value@);
        if exists_at {
            entries.set(p, (section, key, value));
            proof {
                let es = entries@.map_values(|e: (Vec<char>, Vec<char>, Vec<char>)| (e.0@, e.1@, e.2@));
                assert(es =~= old_es.update(p as int, e_new));
                assert(strictly_sorted(es)) by {
                    assert forall|i: int, j: int| 0 <= i < j < es.len() implies key_lt(
                        ekey(es[i]),
                        ekey(es[j]),
                    ) by {
                        assert(ekey(es[i]) == ekey(old_es[i]));
                        assert(ekey(es[j]) == ekey(old_es[j]));
                    }
                }
                assert forall|k2: DumpKey| #[trigger] has_key(es, k2) == has_key(old_es, k2) by {
                    if has_key(es, k2) {
                        let i = choose|i: int| 0 <= i < es.len() && ekey(es[i]) == k2;
                        assert(ekey(old_es[i]) == k2);
                    }
                    if has_key(old_es, k2) {
                        let i = choose|i: int| 0 <= i < old_es.len() && ekey(old_es[i]) == k2;
                        assert(ekey(es[i]) == k2);
                    }
                }
                assert forall|k2: DumpKey| #[trigger] model_of(es).dom().contains(k2) implies model_of(
                    es,
                )[k2] == model_of(old_es).insert(k, value@)[k2] by {
                    let i = choose|i: int| 0 <= i < es.len() && ekey(es[i]) == k2;
                    lemma_model_lookup(es, i);
                    if i != p {
                        lemma_model_lookup(old_es, i);
                        lemma_sorted_distinct(es, i, p as int);
                    }
                }
                assert(ekey(old_es[p as int]) == k);
                assert(has_key(old_es, k));
                assert(model_of(es) =~= model_of(old_es).insert(k, value@));
            }
        } else {
            entries.insert(p, (section, key, value));
            proof {
                let es = entries@.map_values(|e: (Vec<char>, Vec<char>, Vec<char>)| (e.0@, e.1@, e.2@));
                assert(es =~= old_es.insert(p as int, e_new));
                assert(p < old_es.len() ==> key_lt(k, ekey(old_es[p as int]))) by {
                    if p < old_es.len() {
                        lemma_key_order(k, ekey(old_es[p as int]), k);
                    }
                }
                assert(strictly_sorted(es)) by {
                    assert forall|i: int, j: int| 0 <= i < j < es.len() implies key_lt(
                        ekey(es[i]),
                        ekey(es[j]),
                    ) by {
                        if j < p {
                        } else if j == p {
                        } else if i < p {
                            assert(es[j] == old_es[j - 1]);
                            lemma_key_order(ekey(es[i]), k, ekey(old_es[p as int]));
                            if j - 1 > p {
                                lemma_key_order(ekey(es[i]), ekey(old_es[p as int]), ekey(es[j]));
                            }
                        } else if i == p {
                            assert(es[j] == old_es[j - 1]);
                            if j - 1 > p {
                                lemma_key_order(k, ekey(old_es[p as int]), ekey(es[j]));
                            }
                        } else {
                            assert(es[i] == old_es[i - 1]);
                            assert(es[j] == old_es[j - 1]);
                        }
                    }
                }
                assert forall|k2: DumpKey| #[trigger] has_key(es, k2) == (has_key(old_es, k2) || k2
                    == k) by {
                    if has_key(es, k2) {
                        let i = choose|i: int| 0 <= i < es.len() && ekey(es[i]) == k2;
                        if i < p {
                            assert(ekey(old_es[i]) == k2);
                        } else if i > p {
                            assert(ekey(old_es[i - 1]) == k2);
                        }
                    }
                    if has_key(old_es, k2) {
                        let i = choose|i: int| 0 <= i < old_es.len() && ekey(old_es[i]) == k2;
                        if i < p {
                            assert(ekey(es[i]) == k2);
                        } else {
                            assert(ekey(es[i + 1]) == k2);
                        }
                    }
                    if k2 == k {
                        assert(ekey(es[p as int]) == k2);
                    }
                }
                assert forall|k2: DumpKey| #[trigger] model_of(es).dom().contains(k2) implies model_of(
                    es,
                )[k2] == model_of(old_es).insert(k, value@)[k2] by {
                    let i = choose|i: int| 0 <= i < es.len() && ekey(es[i]) == k2;
                    lemma_model_lookup(es, i);
                    if i < p {
                        lemma_model_lookup(old_es, i);
                        lemma_sorted_distinct(es, i, p as int);
                    } else if i > p {
                        lemma_model_lookup(old_es, i - 1);
                        lemma_sorted_distinct(es, i, p as int);
                    }
                }
                assert(model_of(es) =~= model_of(old_es).insert(k, value@));
            }
        }
        let r = DumpMap { entries };
        assert(r@ == entries@.map_values(|e: (Vec<char>, Vec<char>, Vec<char>)| (e.0@, e.1@, e.2@)));
        r
    }
}

/// `(s1, k1) < (s2, k2)`.
fn key_less(s1: &[char], k1: &[char], s2: &[char], k2: &[char]) -> (r: bool)
    ensures
        r == key_lt((s1@, k1@), (s2@, k2@)),
{
    lex_less(s1, s2) || (same(s1, s2) && lex_less(k1, k2))
}

/// `trim_start_matches(c)`.
fn strip_lead_exec(v: &[char], c: char) -> (r: Vec<char>)
    ensures
        r@ == strip_lead(v@, c),
{
    let mut b: usize = 0;
    assert(v@ =~= v@.subrange(0, v@.len() as int));
    while b < v.len() && v[b] == c
        invariant
            b <= v.len(),
            strip_lead(v@, c) == strip_lead(v@.subrange(b as int, v@.len() as int), c),
        decreases v.len() - b,
    {
        assert(v@.subrange(b as int, v@.len() as int).drop_first() =~= v@.subrange(
            b as int + 1,
            v@.len() as int,
        ));
        b += 1;
    }
    slice(v, b, v.len())
}

/// `trim_end_matches(c)`.
pub(crate) fn strip_trail_exec(v: &[char], c: char) -> (r: Vec<char>)
    ensures
        r@ == strip_trail(v@, c),
{
    let mut e: usize = v.len();
    assert(v@ =~= v@.subrange(0, v@.len() as int));
    while e > 0 && v[e - 1] == c
        invariant
            e <= v.len(),
            strip_trail(v@, c) == strip_trail(v@.subrange(0, e as int), c),
        decreases e,
    {
        assert(v@.subrange(0, e as int).drop_last() =~= v@.subrange(0, e as int - 1));
        e -= 1;
    }
    slice(v, 0, e)
}

fn is_header_exec(t: &[char]) -> (b: bool)
    ensures
        b == is_header(t@),
{
    t.len() > 0 && t[0] == '[' && t[t.len() - 1] == ']'
}

/// The section a trimmed header line denotes.
fn section_of(t: &[char]) -> (r: Vec<char>)
    ensures
        r@ == section_spec(t@),
{
    let a = strip_lead_exec(t, '[');
    let b = strip_trail_exec(a.as_slice(), ']');
    let c = strip_lead_exec(b.as_slice(), '/');
    strip_trail_exec(c.as_slice(), '/')
}

/// How one dump line reads.
enum LineRead {
    Header(Vec<char>),
    Entry(Vec<char>, Vec<char>),
    Other,
}

fn read_line(l: &[char]) -> (r: LineRead)
    ensures
        match r {
            LineRead::Header(s) => line_is_header(l@) && s@ == section_spec(trim(l@)),
            LineRead::Entry(k, v) => line_is_entry(l@) && k@ == line_key(l@) && v@ == line_value(
                l@,
            ),
            LineRead::Other => !line_is_header(l@) && !line_is_entry(l@),
        },
{
    let t = trimmed(l);
    if is_header_exec(t.as_slice()) {
        return LineRead::Header(section_of(t.as_slice()));
    }
    match find_char(t.as_slice(), '=') {
        Some(p) => {
            proof {
                assert(is_first(t@, '=', p as int));
                assert(has_char(t@, '=')) by {
                    assert(t@[p as int] == '=');
                }
            }
            let n = t.len();
            let k = slice(t.as_slice(), 0, p);
            let v = slice(t.as_slice(), p + 1, n);
            LineRead::Entry(trimmed(k.as_slice()), trimmed(v.as_slice()))
        },
        None => LineRead::Other,
    }
}

/// The id `strip` matches against and drift reports: `section/key`, or a bare
/// `key` at the dump root.
pub fn key_id(section: &str, key: &str) -> (r: String)
    ensures
        r@ == key_id_spec(section@, key@),
{
    let s = chars_of(section);
    let k = chars_of(key);
    if s.len() == 0 {
        string_of(k.as_slice())
    } else {
        let mut out = string_of(s.as_slice());
        push_chars(&mut out, &['/']);
        push_chars(&mut out, k.as_slice());
        out
    }
}

/// Parse a dump into `(section, key) → value`, ordered by section and then
/// key. Lines that aren't `key=value` (and the headers themselves) are
/// structure, not data.
pub fn parse_dump(dump: &str) -> (m: DumpMap)
    ensures
        m.model() == dump_model(dump@),
        strictly_sorted(m@),
{
    let v = chars_of(dump);
    let ls = lines(v.as_slice());
    let ghost all = views(ls@);
    let mut m = DumpMap::new();
    let mut section: Vec<char> = Vec::new();
    let mut i: usize = 0;
    while i < ls.len()
        invariant
            i <= ls@.len(),
            all == views(ls@),
            all == lines_of(v@),
            v@ == dump@,
            section@ == section_after(all.take(i as int), Seq::empty()),
            m.model() == model_after(all.take(i as int), Seq::empty(), Map::empty()),
        decreases ls.len() - i,
    {
        let ghost pre = all.take(i as int);
        assert(all.take(i as int + 1).drop_last() =~= pre);
        assert(all.take(i as int + 1).last() == ls@[i as int]@);
        match read_line(ls[i].as_slice()) {
            LineRead::Header(s) => {
                section = s;
            },
            LineRead::Entry(k, val) => {
                let sec = copy_chars(section.as_slice());
                assert(sec@ =~= section@);
                m = m.insert(sec, k, val);
            },
            LineRead::Other => {},
        }
        i += 1;
    }
    assert(all.take(ls@.len() as int) =~= all);
    proof {
        use_type_invariant(&m);
    }
    m
}

} // verus!

verus! {

pub open spec fn opt_view(o: Option<String>) -> Option<Seq<char>> {
    match o {
        Some(s) => Some(s@),
        None => None,
    }
}

/// One key-level difference between a snapshot file and live dconf. `file` is
/// the value the spec holds, `live` the value on the machine.
#[derive(Debug, Clone, PartialEq, Eq)]
pub struct KeyDiff {
    pub section: String,
    pub key: String,
    pub file: Option<String>,
    pub live: Option<String>,
}

impl View for KeyDiff {
    type V = (Seq<char>, Seq<char>, Option<Seq<char>>, Option<Seq<char>>);

    open spec fn view(&self) -> (Seq<char>, Seq<char>, Option<Seq<char>>, Option<Seq<char>>) {
        (self.section@, self.key@, opt_view(self.file), opt_view(self.live))
    }
}

pub open spec fn diff_key(d: (Seq<char>, Seq<char>, Option<Seq<char>>, Option<Seq<char>>)) -> DumpKey {
    (d.0, d.1)
}

/// The drift word for a difference.
pub open spec fn status_spec(d: (Seq<char>, Seq<char>, Option<Seq<char>>, Option<Seq<char>>)) -> Seq<char> {
    match (d.2, d.3) {
        (Some(_), Some(_)) => "changed"@,
        (Some(_), None) => "missing"@,
        (None, Some(_)) => "extra"@,
        (None, None) => "unchanged"@,
    }
}

pub open spec fn diff_views(ds: Seq<KeyDiff>) -> Seq<(Seq<char>, Seq<char>, Option<Seq<char>>, Option<Seq<char>>)> {
    ds.map_values(|d: KeyDiff| d@)
}

/// `d` reports key `diff_key(d)` with its value in `a` (the file) and in `b`
/// (live), and those differ.
pub open spec fn diff_is_for(
    d: (Seq<char>, Seq<char>, Option<Seq<char>>, Option<Seq<char>>),
    a: DumpModel,
    b: DumpModel,
) -> bool {
    &&& d.2 == lookup(a, diff_key(d))
    &&& d.3 == lookup(b, diff_key(d))
    &&& lookup(a, diff_key(d)) != lookup(b, diff_key(d))
}

/// `r` lists, ordered by `(section, key)`, exactly the keys on which `a` and
/// `b` disagree.
pub open spec fn is_diff_of(
    r: Seq<(Seq<char>, Seq<char>, Option<Seq<char>>, Option<Seq<char>>)>,
    a: DumpModel,
    b: DumpModel,
) -> bool {
    &&& forall|i: int, j: int|
        0 <= i < j < r.len() ==> key_lt(diff_key(#[trigger] r[i]), diff_key(#[trigger] r[j]))
    &&& forall|i: int| 0 <= i < r.len() ==> diff_is_for(#[trigger] r[i], a, b)
    &&& forall|k: DumpKey|
        #[trigger] lookup(a, k) != lookup(b, k) ==> exists|i: int|
            0 <= i < r.len() && diff_key(r[i]) == k
}

impl KeyDiff {
    /// `section/key` — the same id `strip` matches against.
    pub fn id(&self) -> (r: String)
        ensures
            r@ == key_id_spec(self.section@, self.key@),
    {
        key_id(self.section.as_str(), self.key.as_str())
    }

    /// Drift vocabulary: `missing` = in the spec, not set on the machine;
    /// `extra` = set on the machine, not captured; `changed` = both, different.
    pub fn status(&self) -> (r: &'static str)
        ensures
            r@ == status_spec(self@),
    {
        match (&self.file, &self.live) {
            (Some(_), Some(_)) => "changed",
            (Some(_), None) => "missing",
            (None, Some(_)) => "extra",
            (None, None) => "unchanged",
        }
    }

    /// A field-by-field copy.
    pub fn copied(&self) -> (r: KeyDiff)
        ensures
            r@ == self@,
    {
        KeyDiff {
            section: self.section.clone(),
            key: self.key.clone(),
            file: match &self.file {
                Some(s) => Some(s.clone()),
                None => None,
            },
            live: match &self.live {
                Some(s) => Some(s.clone()),
                None => None,
            },
        }
    }
}

proof fn lemma_not_in_sorted(es: Seq<(Seq<char>, Seq<char>, Seq<char>)>, j: int, k: DumpKey)
    requires
        strictly_sorted(es),
        0 <= j <= es.len(),
        forall|q: int| 0 <= q < j ==> key_lt(ekey(#[trigger] es[q]), k),
        j < es.len() ==> key_lt(k, ekey(es[j])),
    ensures
        !has_key(es, k),
{
    if has_key(es, k) {
        let q = choose|q: int| 0 <= q < es.len() && ekey(es[q]) == k;
        lemma_key_order(k, k, k);
        if q > j {
            lemma_key_order(k, ekey(es[j]), ekey(es[q]));
        }
    }
}

/// Diff a snapshot file against a live dump: every key on which they
/// disagree, ordered by section and then key. Both sides should already be
/// filtered through the same `strip` list.
pub fn diff_dumps(file: &str, live: &str) -> (r: Vec<KeyDiff>)
    ensures
        is_diff_of(diff_views(r@), dump_model(file@), dump_model(live@)),
{
    let ma = parse_dump(file);
    let mb = parse_dump(live);
    proof {
        use_type_invariant(&ma);
        use_type_invariant(&mb);
    }
    let ghost a = ma@;
    let ghost b = mb@;
    let ghost mdl_a = ma.model();
    let ghost mdl_b = mb.model();
    let na = ma.entries.len();
    let nb = mb.entries.len();
    let mut out: Vec<KeyDiff> = Vec::new();
    let mut i: usize = 0;
    let mut j: usize = 0;
    while i < na || j < nb
        invariant
            na == a.len(),
            nb == b.len(),
            a == ma@,
            b == mb@,
            mdl_a == model_of(a),
            mdl_b == model_of(b),
            mdl_a == dump_model(file@),
            mdl_b == dump_model(live@),
            strictly_sorted(a),
            strictly_sorted(b),
            i <= na,
            j <= nb,
            forall|p: int| 0 <= p < i ==> (j < nb ==> key_lt(ekey(#[trigger] a[p]), ekey(b[j as int]))),
            forall|q: int| 0 <= q < j ==> (i < na ==> key_lt(ekey(#[trigger] b[q]), ekey(a[i as int]))),
            forall|p: int, q: int|
                0 <= p < q < out@.len() ==> key_lt(
                    diff_key(#[trigger] diff_views(out@)[p]),
                    diff_key(#[trigger] diff_views(out@)[q]),
                ),
            forall|p: int|
                0 <= p < out@.len() ==> diff_is_for(#[trigger] diff_views(out@)[p], mdl_a, mdl_b),
            forall|p: int|
                0 <= p < out@.len() ==> (i < na ==> key_lt(
                    diff_key(#[trigger] diff_views(out@)[p]),
                    ekey(a[i as int]),
                )) && (j < nb ==> key_lt(diff_key(diff_views(out@)[p]), ekey(b[j as int]))),
            forall|k: DumpKey|
                (has_key(a.take(i as int), k) || has_key(b.take(j as int), k)) && #[trigger] lookup(
                    mdl_a,
                    k,
                ) != lookup(mdl_b, k) ==> exists|p: int|
                    0 <= p < out@.len() && diff_key(diff_views(out@)[p]) == k,
        decreases na - i + nb - j,
    {
        let ghost old_out = diff_views(out@);
        let take_a = j >= nb || (i < na && key_less(
            ma.entries[i].0.as_slice(),
            ma.entries[i].1.as_slice(),
            mb.entries[j].0.as_slice(),
            mb.entries[j].1.as_slice(),
        ));
        let take_b = !take_a && (i >= na || key_less(
            mb.entries[j].0.as_slice(),
            mb.entries[j].1.as_slice(),
            ma.entries[i].0.as_slice(),
            ma.entries[i].1.as_slice(),
        ));
        if take_a {
            let e = &ma.entries[i];
            assert(a[i as int] == (e.0@, e.1@, e.2@));
            let ghost k = ekey(a[i as int]);
            proof {
                lemma_model_lookup(a, i as int);
                assert forall|q: int| 0 <= q < j implies key_lt(ekey(#[trigger] b[q]), k) by {}
                lemma_not_in_sorted(b, j as int, k);
            }
            out.push(
                KeyDiff {
                    section: string_of(e.0.as_slice()),
                    key: string_of(e.1.as_slice()),
                    file: Some(string_of(e.2.as_slice())),
                    live: None,
                },
            );
            proof {
                let nv = diff_views(out@);
                assert(nv =~= old_out.push((k.0, k.1, Some(a[i as int].2), None)));
                assert forall|p: int| 0 <= p < old_out.len() implies (i + 1 < na ==> key_lt(
                    diff_key(#[trigger] nv[p]),
                    ekey(a[i + 1]),
                )) by {
                    if i + 1 < na {
                        lemma_key_order(diff_key(nv[p]), k, ekey(a[i + 1]));
                    }
                }
                assert forall|q: int| 0 <= q < j implies (i + 1 < na ==> key_lt(
                    ekey(#[trigger] b[q]),
                    ekey(a[i + 1]),
                )) by {
                    if i + 1 < na {
                        lemma_key_order(ekey(b[q]), k, ekey(a[i + 1]));
                    }
                }
                assert forall|k2: DumpKey|
                    (has_key(a.take(i + 1), k2) || has_key(b.take(j as int), k2)) && #[trigger] lookup(
                        mdl_a,
                        k2,
                    ) != lookup(mdl_b, k2) implies exists|p: int|
                    0 <= p < nv.len() && diff_key(nv[p]) == k2 by {
                    if k2 == k {
                        assert(diff_key(nv[old_out.len() as int]) == k2);
                    } else {
                        if has_key(a.take(i + 1), k2) {
                            let p = choose|p: int| 0 <= p < a.take(i + 1).len() && ekey(#[trigger] a.take(i + 1)[p]) == k2;
                            assert(p < i);
                            assert(has_key(a.take(i as int), k2)) by {
                                assert(ekey(a.take(i as int)[p]) == k2);
                            }
                        }
                        let p = choose|p: int| 0 <= p < old_out.len() && diff_key(old_out[p]) == k2;
                        assert(diff_key(nv[p]) == k2);
                    }
                }
            }
            i += 1;
        } else if take_b {
            let e = &mb.entries[j];
            assert(b[j as int] == (e.0@, e.1@, e.2@));
            let ghost k = ekey(b[j as int]);
            proof {
                lemma_model_lookup(b, j as int);
                lemma_not_in_sorted(a, i as int, k);
            }
            out.push(
                KeyDiff {
                    section: string_of(e.0.as_slice()),
                    key: string_of(e.1.as_slice()),
                    file: None,
                    live: Some(string_of(e.2.as_slice())),
                },
            );
            proof {
                let nv = diff_views(out@);
                assert(nv =~= old_out.push((k.0, k.1, None, Some(b[j as int].2))));
                assert forall|p: int| 0 <= p < old_out.len() implies (j + 1 < nb ==> key_lt(
                    diff_key(#[trigger] nv[p]),
                    ekey(b[j + 1]),
                )) by {
                    if j + 1 < nb {
                        lemma_key_order(diff_key(nv[p]), k, ekey(b[j + 1]));
                    }
                }
                assert forall|p: int| 0 <= p < i implies (j + 1 < nb ==> key_lt(
                    ekey(#[trigger] a[p]),
                    ekey(b[j + 1]),
                )) by {
                    if j + 1 < nb {
                        lemma_key_order(ekey(a[p]), k, ekey(b[j + 1]));
                    }
                }
                assert forall|k2: DumpKey|
                    (has_key(a.take(i as int), k2) || has_key(b.take(j + 1), k2)) && #[trigger] lookup(
                        mdl_a,
                        k2,
                    ) != lookup(mdl_b, k2) implies exists|p: int|
                    0 <= p < nv.len() && diff_key(nv[p]) == k2 by {
                    if k2 == k {
                        assert(diff_key(nv[old_out.len() as int]) == k2);
                    } else {
                        if has_key(b.take(j + 1), k2) {
                            let p = choose|p: int| 0 <= p < b.take(j + 1).len() && ekey(#[trigger] b.take(j + 1)[p]) == k2;
                            assert(p < j);
                            assert(has_key(b.take(j as int), k2)) by {
                                assert(ekey(b.take(j as int)[p]) == k2);
                            }
                        }
                        let p = choose|p: int| 0 <= p < old_out.len() && diff_key(old_out[p]) == k2;
                        assert(diff_key(nv[p]) == k2);
                    }
                }
            }
            j += 1;
        } else {
            let ea = &ma.entries[i];
            let eb = &mb.entries[j];
            assert(a[i as int] == (ea.0@, ea.1@, ea.2@));
            assert(b[j as int] == (eb.0@, eb.1@, eb.2@));
            let ghost k = ekey(a[i as int]);
            proof {
                lemma_key_order(ekey(a[i as int]), ekey(b[j as int]), k);
                assert(ekey(b[j as int]) == k);
                lemma_model_lookup(a, i as int);
                lemma_model_lookup(b, j as int);
            }
            let differs = !same(ea.2.as_slice(), eb.2.as_slice());
            if differs {
                out.push(
                    KeyDiff {
                        section: string_of(ea.0.as_slice()),
                        key: string_of(ea.1.as_slice()),
                        file: Some(string_of(ea.2.as_slice())),
                        live: Some(string_of(eb.2.as_slice())),
                    },
                );
            }
            proof {
                let nv = diff_views(out@);
                if differs {
                    assert(nv =~= old_out.push((k.0, k.1, Some(a[i as int].2), Some(b[j as int].2))));
                } else {
                    assert(nv =~= old_out);
                }
                assert forall|p: int| 0 <= p < nv.len() implies (i + 1 < na ==> key_lt(
                    diff_key(#[trigger] nv[p]),
                    ekey(a[i + 1]),
                )) && (j + 1 < nb ==> key_lt(diff_key(nv[p]), ekey(b[j + 1]))) by {
                    if i + 1 < na {
                        lemma_key_order(diff_key(nv[p]), k, ekey(a[i + 1]));
                    }
                    if j + 1 < nb {
                        lemma_key_order(diff_key(nv[p]), k, ekey(b[j + 1]));
                    }
                }
                assert forall|q: int| 0 <= q < j + 1 implies (i + 1 < na ==> key_lt(
                    ekey(#[trigger] b[q]),
                    ekey(a[i + 1]),
                )) by {
                    if i + 1 < na {
                        lemma_key_order(ekey(b[q]), k, ekey(a[i + 1]));
                    }
                }
                assert forall|p: int| 0 <= p < i + 1 implies (j + 1 < nb ==> key_lt(
                    ekey(#[trigger] a[p]),
                    ekey(b[j + 1]),
                )) by {
                    if j + 1 < nb {
                        lemma_key_order(ekey(a[p]), k, ekey(b[j + 1]));
                    }
                }
                assert forall|k2: DumpKey|
                    (has_key(a.take(i + 1), k2) || has_key(b.take(j + 1), k2)) && #[trigger] lookup(
                        mdl_a,
                        k2,
                    ) != lookup(mdl_b, k2) implies exists|p: int|
                    0 <= p < nv.len() && diff_key(nv[p]) == k2 by {
                    if k2 == k {
                        assert(diff_key(nv[old_out.len() as int]) == k2);
                    } else {
                        if has_key(a.take(i + 1), k2) {
                            let p = choose|p: int| 0 <= p < a.take(i + 1).len() && ekey(#[trigger] a.take(i + 1)[p]) == k2;
                            assert(p < i);
                            assert(has_key(a.take(i as int), k2)) by {
                                assert(ekey(a.take(i as int)[p]) == k2);
                            }
                        }
                        if has_key(b.take(j + 1), k2) {
                            let p = choose|p: int| 0 <= p < b.take(j + 1).len() && ekey(#[trigger] b.take(j + 1)[p]) == k2;
                            assert(p < j);
                            assert(has_key(b.take(j as int), k2)) by {
                                assert(ekey(b.take(j as int)[p]) == k2);
                            }
                        }
                        let p = choose|p: int| 0 <= p < old_out.len() && diff_key(old_out[p]) == k2;
                        assert(diff_key(nv[p]) == k2);
                    }
                }
            }
            i += 1;
            j += 1;
        }
    }
    proof {
        assert(a.take(na as int) =~= a);
        assert(b.take(nb as int) =~= b);
        assert forall|k: DumpKey| #[trigger] lookup(mdl_a, k) != lookup(mdl_b, k) implies (has_key(
            a,
            k,
        ) || has_key(b, k)) by {}
    }
    out
}

} // verus!

verus! {

pub open spec fn group_views(gs: Seq<(String, Vec<KeyDiff>)>) -> Seq<
    (Seq<char>, Seq<(Seq<char>, Seq<char>, Option<Seq<char>>, Option<Seq<char>>)>),
> {
    gs.map_values(|g: (String, Vec<KeyDiff>)| (g.0@, diff_views(g.1@)))
}

/// The groups' members, in order.
pub open spec fn flatten<A>(gs: Seq<(Seq<char>, Seq<A>)>) -> Seq<A>
    decreases gs.len(),
{
    if gs.len() == 0 {
        Seq::empty()
    } else {
        flatten(gs.drop_last()) + gs.last().1
    }
}

/// Group diffs by their section, preserving their order: each run of
/// consecutive diffs in one section is one group. For a snapshot rooted at
/// `/org/gnome/shell/extensions/` each section *is* one extension.
pub fn group_by_section(diffs: &[KeyDiff]) -> (r: Vec<(String, Vec<KeyDiff>)>)
    ensures
        flatten(group_views(r@)) == diff_views(diffs@),
        forall|g: int| 0 <= g < r@.len() ==> (#[trigger] group_views(r@)[g]).1.len() > 0,
        forall|g: int, m: int|
            0 <= g < r@.len() && 0 <= m < group_views(r@)[g].1.len() ==> (#[trigger] group_views(
                r@,
            )[g].1[m]).0 == group_views(r@)[g].0,
        forall|g: int|
            0 <= g < r@.len() - 1 ==> (#[trigger] group_views(r@)[g]).0 != group_views(r@)[g
                + 1].0,
{
    let mut out: Vec<(String, Vec<KeyDiff>)> = Vec::new();
    let mut cur_s = String::new();
    let mut cur: Vec<KeyDiff> = Vec::new();
    let mut i: usize = 0;
    while i < diffs.len()
        invariant
            i <= diffs@.len(),
            flatten(group_views(out@)) + diff_views(cur@) == diff_views(diffs@).take(i as int),
            i > 0 ==> cur@.len() > 0,
            i == 0 ==> cur@.len() == 0 && out@.len() == 0,
            forall|m: int| 0 <= m < cur@.len() ==> (#[trigger] cur@[m]).section@ == cur_s@,
            forall|g: int| 0 <= g < out@.len() ==> (#[trigger] group_views(out@)[g]).1.len() > 0,
            forall|g: int, m: int|
                0 <= g < out@.len() && 0 <= m < group_views(out@)[g].1.len() ==> (
                #[trigger] group_views(out@)[g].1[m]).0 == group_views(out@)[g].0,
            forall|g: int|
                0 <= g < out@.len() - 1 ==> (#[trigger] group_views(out@)[g]).0 != group_views(
                    out@,
                )[g + 1].0,
            out@.len() > 0 ==> group_views(out@).last().0 != cur_s@,
        decreases diffs.len() - i,
    {
        let d = &diffs[i];
        let ghost before_out = group_views(out@);
        if i > 0 && d.section == cur_s {
            cur.push(d.copied());
            proof {
                assert(diff_views(cur@) =~= diff_views(cur@).drop_last().push(d@));
                assert(diff_views(diffs@).take(i as int + 1) =~= diff_views(diffs@).take(
                    i as int,
                ).push(d@));
            }
        } else {
            if i > 0 {
                let done = cur;
                let ghost gv = (cur_s@, diff_views(done@));
                out.push((cur_s, done));
                proof {
                    assert(group_views(out@) =~= before_out.push(gv));
                    assert(group_views(out@).drop_last() =~= before_out);
                }
            }
            cur_s = d.section.clone();
            cur = Vec::new();
            cur.push(d.copied());
            proof {
                assert(diff_views(cur@) =~= seq![d@]);
                assert(diff_views(diffs@).take(i as int + 1) =~= diff_views(diffs@).take(
                    i as int,
                ).push(d@));
                if i > 0 {
                    let ng = group_views(out@);
                    assert(flatten(ng) == flatten(ng.drop_last()) + ng.last().1);
                }
            }
        }
        i += 1;
    }
    if i > 0 {
        let ghost before_out = group_views(out@);
        let ghost gv = (cur_s@, diff_views(cur@));
        out.push((cur_s, cur));
        proof {
            let ng = group_views(out@);
            assert(ng =~= before_out.push(gv));
            assert(ng.drop_last() =~= before_out);
        }
    }
    assert(diff_views(diffs@).take(diffs@.len() as int) =~= diff_views(diffs@));
    out
}

} // verus!

verus! {

/// A dump as section blocks: the raw `[…]` header line, the section it
/// denotes, and the non-blank lines under it.
pub type BlockV = (Seq<char>, Seq<char>, Seq<Seq<char>>);

/// The blocks of a list of lines: a header opens a block, blank lines and
/// lines before the first header are dropped.
pub open spec fn blocks_after(ls: Seq<Seq<char>>) -> Seq<BlockV>
    decreases ls.len(),
{
    if ls.len() == 0 {
        Seq::empty()
    } else {
        let bs = blocks_after(ls.drop_last());
        let l = ls.last();
        if line_is_header(l) {
            bs.push((l, section_spec(trim(l)), Seq::empty()))
        } else if trim(l).len() == 0 || bs.len() == 0 {
            bs
        } else {
            bs.update(bs.len() - 1, (bs.last().0, bs.last().1, bs.last().2.push(l)))
        }
    }
}

pub open spec fn blocks_of(d: Seq<char>) -> Seq<BlockV> {
    blocks_after(lines_of(d))
}

/// A block's lines in a rendering: header, lines, blank separator; nothing
/// for a block without lines.
pub open spec fn block_lines(b: BlockV) -> Seq<Seq<char>> {
    if b.2.len() == 0 {
        Seq::empty()
    } else {
        seq![b.0] + b.2 + seq![Seq::<char>::empty()]
    }
}

pub open spec fn render_lines(bs: Seq<BlockV>) -> Seq<Seq<char>>
    decreases bs.len(),
{
    if bs.len() == 0 {
        Seq::empty()
    } else {
        render_lines(bs.drop_last()) + block_lines(bs.last())
    }
}

/// The text of some blocks: each non-empty block as header and lines, blocks
/// separated by a blank line, ending in a single newline.
pub open spec fn render_spec(bs: Seq<BlockV>) -> Seq<char> {
    let r = render_lines(bs);
    join_nl(
        if r.len() > 0 {
            r.drop_last()
        } else {
            r
        },
    )
}

/// The line `key=value`.
pub open spec fn entry_line(key: Seq<char>, value: Seq<char>) -> Seq<char> {
    key + seq!['='] + value
}

/// A line whose key (before its first `=`, trimmed) is `k`.
pub open spec fn line_has_key(l: Seq<char>, k: Seq<char>) -> bool {
    has_char(trim(l), '=') && line_key(l) == k
}

pub open spec fn first_with_key(ls: Seq<Seq<char>>, k: Seq<char>, j: int) -> bool {
    0 <= j < ls.len() && line_has_key(ls[j], k) && forall|q: int|
        0 <= q < j ==> !line_has_key(#[trigger] ls[q], k)
}

/// `k` set to line `e`: the first line with key `k` replaced, else `e` appended.
pub open spec fn set_in_lines(ls: Seq<Seq<char>>, k: Seq<char>, e: Seq<char>) -> Seq<Seq<char>> {
    if exists|j: int| first_with_key(ls, k, j) {
        ls.update(choose|j: int| first_with_key(ls, k, j), e)
    } else {
        ls.push(e)
    }
}

/// The lines without key `k`.
pub open spec fn drop_key_lines(ls: Seq<Seq<char>>, k: Seq<char>) -> Seq<Seq<char>>
    decreases ls.len(),
{
    if ls.len() == 0 {
        Seq::empty()
    } else if line_has_key(ls.last(), k) {
        drop_key_lines(ls.drop_last(), k)
    } else {
        drop_key_lines(ls.drop_last(), k).push(ls.last())
    }
}

pub open spec fn first_block(bs: Seq<BlockV>, s: Seq<char>, i: int) -> bool {
    0 <= i < bs.len() && bs[i].1 == s && forall|q: int| 0 <= q < i ==> (#[trigger] bs[q]).1 != s
}

/// The header a new block for section `s` gets: dconf writes the root as
/// `[/]`, nested sections unslashed.
pub open spec fn header_for(s: Seq<char>) -> Seq<char> {
    if s.len() == 0 {
        seq!['[', '/', ']']
    } else {
        seq!['['] + s + seq![']']
    }
}

/// The blocks with `section/key` set to `value`.
pub open spec fn with_key_blocks(bs: Seq<BlockV>, s: Seq<char>, k: Seq<char>, v: Seq<char>) -> Seq<
    BlockV,
> {
    if exists|i: int| first_block(bs, s, i) {
        let i = choose|i: int| first_block(bs, s, i);
        bs.update(i, (bs[i].0, bs[i].1, set_in_lines(bs[i].2, k, entry_line(k, v))))
    } else {
        bs.push((header_for(s), s, seq![entry_line(k, v)]))
    }
}

/// The blocks with `section/key` dropped.
pub open spec fn without_key_blocks(bs: Seq<BlockV>, s: Seq<char>, k: Seq<char>) -> Seq<BlockV> {
    if exists|i: int| first_block(bs, s, i) {
        let i = choose|i: int| first_block(bs, s, i);
        bs.update(i, (bs[i].0, bs[i].1, drop_key_lines(bs[i].2, k)))
    } else {
        bs
    }
}

struct Block {
    header: Vec<char>,
    section: Vec<char>,
    lines: Vec<Vec<char>>,
}

impl View for Block {
    type V = BlockV;

    closed spec fn view(&self) -> BlockV {
        (self.header@, self.section@, views(self.lines@))
    }
}

spec fn block_views(bs: Seq<Block>) -> Seq<BlockV> {
    bs.map_values(|b: Block| b@)
}

fn copy_lines(ls: &Vec<Vec<char>>) -> (r: Vec<Vec<char>>)
    ensures
        views(r@) == views(ls@),
{
    let mut r: Vec<Vec<char>> = Vec::new();
    let mut i: usize = 0;
    while i < ls.len()
        invariant
            i <= ls@.len(),
            views(r@) == views(ls@).take(i as int),
        decreases ls.len() - i,
    {
        let c = copy_chars(ls[i].as_slice());
        let ghost r0 = r@;
        r.push(c);
        proof {
            lemma_views_push(r0, c);
            assert(views(r@) =~= views(ls@).take(i as int + 1));
        }
        i += 1;
    }
    assert(views(ls@).take(ls@.len() as int) =~= views(ls@));
    r
}

fn blocks(ls: &Vec<Vec<char>>) -> (r: Vec<Block>)
    ensures
        block_views(r@) == blocks_after(views(ls@)),
{
    let ghost all = views(ls@);
    let mut out: Vec<Block> = Vec::new();
    let mut cur: Option<Block> = None;
    let mut i: usize = 0;
    while i < ls.len()
        invariant
            i <= ls@.len(),
            all == views(ls@),
            blocks_after(all.take(i as int)) == match cur {
                Some(b) => block_views(out@).push(b@),
                None => block_views(out@),
            },
            cur is None ==> out@.len() == 0,
        decreases ls.len() - i,
    {
        let l = &ls[i];
        let ghost pre = all.take(i as int);
        assert(all.take(i as int + 1).drop_last() =~= pre);
        assert(all.take(i as int + 1).last() == l@);
        let t = trimmed(l.as_slice());
        if is_header_exec(t.as_slice()) {
            let nb = Block {
                header: copy_chars(l.as_slice()),
                section: section_of(t.as_slice()),
                lines: Vec::new(),
            };
            match cur {
                Some(b) => {
                    let ghost bv = b@;
                    out.push(b);
                    assert(block_views(out@) =~= block_views(out@).drop_last().push(bv));
                },
                None => {},
            }
            assert(views(nb.lines@) =~= Seq::<Seq<char>>::empty());
            cur = Some(nb);
        } else if t.len() == 0 {
        } else {
            match cur {
                Some(b) => {
                    let mut b = b;
                    let ghost bv = b@;
                    b.lines.push(copy_chars(l.as_slice()));
                    assert(views(b.lines@) =~= bv.2.push(l@));
                    cur = Some(b);
                },
                None => {},
            }
        }
        i += 1;
    }
    assert(all.take(ls@.len() as int) =~= all);
    match cur {
        Some(b) => {
            let ghost bv = b@;
            out.push(b);
            assert(block_views(out@) =~= block_views(out@).drop_last().push(bv));
        },
        None => {},
    }
    out
}

/// Each line followed by a newline, as text.
fn join_lines(ls: &Vec<Vec<char>>, n: usize) -> (r: Vec<char>)
    requires
        n <= ls@.len(),
    ensures
        r@ == join_nl(views(ls@).take(n as int)),
{
    let mut out: Vec<char> = Vec::new();
    let mut i: usize = 0;
    while i < n
        invariant
            i <= n <= ls@.len(),
            out@ == join_nl(views(ls@).take(i as int)),
        decreases n - i,
    {
        let l = &ls[i];
        let mut k: usize = 0;
        let ghost start = out@;
        while k < l.len()
            invariant
                k <= l@.len(),
                out@ == start + l@.take(k as int),
            decreases l.len() - k,
        {
            out.push(l[k]);
            k += 1;
            assert(out@ =~= start + l@.take(k as int));
        }
        out.push('\n');
        proof {
            let t = views(ls@).take(i as int + 1);
            assert(t.drop_last() =~= views(ls@).take(i as int));
            assert(l@.take(l@.len() as int) =~= l@);
            assert(out@ =~= join_nl(t));
        }
        i += 1;
    }
    out
}

fn render(bs: &Vec<Block>) -> (r: String)
    ensures
        r@ == render_spec(block_views(bs@)),
{
    let mut rl: Vec<Vec<char>> = Vec::new();
    let mut i: usize = 0;
    while i < bs.len()
        invariant
            i <= bs@.len(),
            views(rl@) == render_lines(block_views(bs@).take(i as int)),
        decreases bs.len() - i,
    {
        let b = &bs[i];
        let ghost before = views(rl@);
        let ghost t = block_views(bs@).take(i as int + 1);
        assert(t.drop_last() =~= block_views(bs@).take(i as int));
        assert(t.last() == b@);
        if b.lines.len() > 0 {
            let h = copy_chars(b.header.as_slice());
            proof {
                lemma_views_push(rl@, h);
            }
            rl.push(h);
            let mut k: usize = 0;
            while k < b.lines.len()
                invariant
                    k <= b.lines@.len(),
                    views(rl@) == before + seq![b.header@] + views(b.lines@).take(k as int),
                decreases b.lines.len() - k,
            {
                let c = copy_chars(b.lines[k].as_slice());
                proof {
                    lemma_views_push(rl@, c);
                }
                rl.push(c);
                k += 1;
                assert(views(rl@) =~= before + seq![b.header@] + views(b.lines@).take(k as int));
            }
            let e: Vec<char> = Vec::new();
            proof {
                lemma_views_push(rl@, e);
            }
            rl.push(e);
            assert(views(b.lines@).take(b.lines@.len() as int) =~= views(b.lines@));
            assert(views(rl@) =~= before + block_lines(b@));
        } else {
            assert(block_lines(b@) =~= Seq::<Seq<char>>::empty());
            assert(before + block_lines(b@) =~= before);
        }
        i += 1;
    }
    assert(block_views(bs@).take(bs@.len() as int) =~= block_views(bs@));
    let n = rl.len();
    let out = if n > 0 {
        assert(views(rl@).take(n - 1) =~= views(rl@).drop_last());
        join_lines(&rl, n - 1)
    } else {
        assert(views(rl@).take(0) =~= views(rl@));
        join_lines(&rl, 0)
    };
    string_of(out.as_slice())
}

} // verus!

verus! {

/// The dump with `section/key` set to `value`.
pub open spec fn with_key_spec(d: Seq<char>, s: Seq<char>, k: Seq<char>, v: Seq<char>) -> Seq<char> {
    render_spec(with_key_blocks(blocks_of(d), s, k, v))
}

/// The dump with `section/key` dropped.
pub open spec fn without_key_spec(d: Seq<char>, s: Seq<char>, k: Seq<char>) -> Seq<char> {
    render_spec(without_key_blocks(blocks_of(d), s, k))
}

/// The content after absorbing each diff in turn: a key the machine sets
/// takes the live value, a key it no longer sets is dropped.
pub open spec fn absorbed_spec(
    c: Seq<char>,
    ds: Seq<(Seq<char>, Seq<char>, Option<Seq<char>>, Option<Seq<char>>)>,
) -> Seq<char>
    decreases ds.len(),
{
    if ds.len() == 0 {
        c
    } else {
        let prev = absorbed_spec(c, ds.drop_last());
        let d = ds.last();
        match d.3 {
            Some(v) => with_key_spec(prev, d.0, d.1, v),
            None => without_key_spec(prev, d.0, d.1),
        }
    }
}

/// Some pattern occurs in `id`.
pub open spec fn stripped(id: Seq<char>, pats: Seq<Seq<char>>) -> bool {
    exists|i: int| 0 <= i < pats.len() && contains(id, #[trigger] pats[i])
}

/// The lines of a block in section `s` that survive `pats`.
pub open spec fn kept_lines(ls: Seq<Seq<char>>, s: Seq<char>, pats: Seq<Seq<char>>) -> Seq<Seq<char>>
    decreases ls.len(),
{
    if ls.len() == 0 {
        Seq::empty()
    } else if line_is_entry(ls.last()) && stripped(key_id_spec(s, line_key(ls.last())), pats) {
        kept_lines(ls.drop_last(), s, pats)
    } else {
        kept_lines(ls.drop_last(), s, pats).push(ls.last())
    }
}

/// The dump filtered through `pats`: every `key=value` line whose
/// `section/key` contains a pattern is dropped, and any section left empty.
pub open spec fn strip_spec(d: Seq<char>, pats: Seq<Seq<char>>) -> Seq<char> {
    render_spec(
        blocks_of(d).map_values(|b: BlockV| (b.0, b.1, kept_lines(b.2, b.1, pats))),
    )
}

pub proof fn lemma_first_block_unique(bs: Seq<BlockV>, s: Seq<char>, i: int, j: int)
    requires
        first_block(bs, s, i),
        first_block(bs, s, j),
    ensures
        i == j,
{
    if i < j {
        assert(bs[i].1 == s);
    } else if j < i {
        assert(bs[j].1 == s);
    }
}

pub proof fn lemma_first_key_unique(ls: Seq<Seq<char>>, k: Seq<char>, i: int, j: int)
    requires
        first_with_key(ls, k, i),
        first_with_key(ls, k, j),
    ensures
        i == j,
{
    if i < j {
        assert(line_has_key(ls[i], k));
    } else if j < i {
        assert(line_has_key(ls[j], k));
    }
}

fn has_key_exec(l: &[char], k: &[char]) -> (r: bool)
    ensures
        r == line_has_key(l@, k@),
{
    let t = trimmed(l);
    match find_char(t.as_slice(), '=') {
        Some(p) => {
            proof {
                assert(t@[p as int] == '=');
            }
            let before_eq = slice(t.as_slice(), 0, p);
            let kk = trimmed(before_eq.as_slice());
            same(kk.as_slice(), k)
        },
        None => false,
    }
}

fn set_line(ls: &Vec<Vec<char>>, k: &[char], e: Vec<char>) -> (r: Vec<Vec<char>>)
    ensures
        views(r@) == set_in_lines(views(ls@), k@, e@),
{
    let ghost vs = views(ls@);
    let mut j: usize = 0;
    while j < ls.len() && !has_key_exec(ls[j].as_slice(), k)
        invariant
            j <= ls@.len(),
            vs == views(ls@),
            forall|q: int| 0 <= q < j ==> !line_has_key(#[trigger] vs[q], k@),
        decreases ls.len() - j,
    {
        j += 1;
    }
    let mut r = copy_lines(ls);
    if j < ls.len() {
        proof {
            assert(first_with_key(vs, k@, j as int));
            let c = choose|c: int| first_with_key(vs, k@, c);
            lemma_first_key_unique(vs, k@, j as int, c);
        }
        let ghost e_v = e@;
        r.set(j, e);
        assert(views(r@) =~= vs.update(j as int, e_v));
    } else {
        proof {
            if exists|c: int| first_with_key(vs, k@, c) {
                let c = choose|c: int| first_with_key(vs, k@, c);
                assert(line_has_key(vs[c], k@));
            }
            lemma_views_push(r@, e);
        }
        r.push(e);
    }
    r
}

fn drop_key(ls: &Vec<Vec<char>>, k: &[char]) -> (r: Vec<Vec<char>>)
    ensures
        views(r@) == drop_key_lines(views(ls@), k@),
{
    let ghost vs = views(ls@);
    let mut r: Vec<Vec<char>> = Vec::new();
    let mut j: usize = 0;
    while j < ls.len()
        invariant
            j <= ls@.len(),
            vs == views(ls@),
            views(r@) == drop_key_lines(vs.take(j as int), k@),
        decreases ls.len() - j,
    {
        assert(vs.take(j as int + 1).drop_last() =~= vs.take(j as int));
        assert(vs.take(j as int + 1).last() == ls@[j as int]@);
        if !has_key_exec(ls[j].as_slice(), k) {
            let c = copy_chars(ls[j].as_slice());
            proof {
                lemma_views_push(r@, c);
            }
            r.push(c);
        }
        j += 1;
    }
    assert(vs.take(ls@.len() as int) =~= vs);
    r
}

/// Index of the first block in section `s`, if any.
fn find_block(bs: &Vec<Block>, s: &[char]) -> (r: Option<usize>)
    ensures
        match r {
            Some(i) => first_block(block_views(bs@), s@, i as int),
            None => !exists|i: int| first_block(block_views(bs@), s@, i),
        },
{
    let ghost vs = block_views(bs@);
    let mut i: usize = 0;
    while i < bs.len()
        invariant
            i <= bs@.len(),
            vs == block_views(bs@),
            forall|q: int| 0 <= q < i ==> (#[trigger] vs[q]).1 != s@,
        decreases bs.len() - i,
    {
        if same(bs[i].section.as_slice(), s) {
            return Some(i);
        }
        i += 1;
    }
    proof {
        if exists|c: int| first_block(vs, s@, c) {
            let c = choose|c: int| first_block(vs, s@, c);
            assert(vs[c].1 == s@);
        }
    }
    None
}

fn parse_blocks(dump: &str) -> (r: Vec<Block>)
    ensures
        block_views(r@) == blocks_of(dump@),
{
    let v = chars_of(dump);
    let ls = lines(v.as_slice());
    blocks(&ls)
}

/// Set `section/key` to `value`: replaced in place if present, appended to
/// its section if not, and the section created if the dump has none.
pub fn dump_with_key(dump: &str, section: &str, key: &str, value: &str) -> (r: String)
    ensures
        r@ == with_key_spec(dump@, section@, key@, value@),
{
    let mut bs = parse_blocks(dump);
    let ghost bv = block_views(bs@);
    let s = chars_of(section);
    let k = chars_of(key);
    let val = chars_of(value);
    let mut entry = copy_chars(k.as_slice());
    entry.push('=');
    let mut q: usize = 0;
    while q < val.len()
        invariant
            q <= val@.len(),
            entry@ == k@ + seq!['='] + val@.take(q as int),
        decreases val.len() - q,
    {
        entry.push(val[q]);
        q += 1;
        assert(entry@ =~= k@ + seq!['='] + val@.take(q as int));
    }
    assert(val@.take(val@.len() as int) =~= val@);
    assert(entry@ == entry_line(k@, val@));
    match find_block(&bs, s.as_slice()) {
        Some(i) => {
            proof {
                let c = choose|c: int| first_block(bv, s@, c);
                lemma_first_block_unique(bv, s@, i as int, c);
            }
            let new_lines = set_line(&bs[i].lines, k.as_slice(), entry);
            let nb = Block {
                header: copy_chars(bs[i].header.as_slice()),
                section: copy_chars(bs[i].section.as_slice()),
                lines: new_lines,
            };
            let ghost nbv = nb@;
            bs.set(i, nb);
            assert(block_views(bs@) =~= bv.update(i as int, nbv));
        },
        None => {
            let mut header: Vec<char> = Vec::new();
            header.push('[');
            if s.len() == 0 {
                header.push('/');
            } else {
                let mut q: usize = 0;
                while q < s.len()
                    invariant
                        q <= s@.len(),
                        header@ == seq!['['] + s@.take(q as int),
                    decreases s.len() - q,
                {
                    header.push(s[q]);
                    q += 1;
                    assert(header@ =~= seq!['['] + s@.take(q as int));
                }
                assert(s@.take(s@.len() as int) =~= s@);
            }
            header.push(']');
            assert(header@ =~= header_for(s@));
            let ghost ev = entry@;
            let mut ls: Vec<Vec<char>> = Vec::new();
            ls.push(entry);
            assert(views(ls@) =~= seq![ev]);
            let nb = Block { header, section: s, lines: ls };
            let ghost nbv = nb@;
            bs.push(nb);
            assert(block_views(bs@) =~= bv.push(nbv));
        },
    }
    render(&bs)
}

/// Drop `section/key`, removing the section if that left it empty.
pub fn dump_without_key(dump: &str, section: &str, key: &str) -> (r: String)
    ensures
        r@ == without_key_spec(dump@, section@, key@),
{
    let mut bs = parse_blocks(dump);
    let ghost bv = block_views(bs@);
    let s = chars_of(section);
    let k = chars_of(key);
    match find_block(&bs, s.as_slice()) {
        Some(i) => {
            proof {
                let c = choose|c: int| first_block(bv, s@, c);
                lemma_first_block_unique(bv, s@, i as int, c);
            }
            let new_lines = drop_key(&bs[i].lines, k.as_slice());
            let nb = Block {
                header: copy_chars(bs[i].header.as_slice()),
                section: copy_chars(bs[i].section.as_slice()),
                lines: new_lines,
            };
            let ghost nbv = nb@;
            bs.set(i, nb);
            assert(block_views(bs@) =~= bv.update(i as int, nbv));
        },
        None => {},
    }
    render(&bs)
}

/// Apply accepted absorbs to a snapshot file's content (spec ← machine): a key
/// the machine sets takes the live value; a key it no longer sets is dropped.
pub fn absorbed(content: &str, accepted: &[KeyDiff]) -> (r: String)
    ensures
        r@ == absorbed_spec(content@, diff_views(accepted@)),
{
    let mut out = String::new();
    push_chars(&mut out, chars_of(content).as_slice());
    let ghost ds = diff_views(accepted@);
    let mut i: usize = 0;
    while i < accepted.len()
        invariant
            i <= accepted@.len(),
            ds == diff_views(accepted@),
            out@ == absorbed_spec(content@, ds.take(i as int)),
        decreases accepted.len() - i,
    {
        let d = &accepted[i];
        assert(ds.take(i as int + 1).drop_last() =~= ds.take(i as int));
        assert(ds.take(i as int + 1).last() == d@);
        out = match &d.live {
            Some(v) => dump_with_key(out.as_str(), d.section.as_str(), d.key.as_str(), v.as_str()),
            None => dump_without_key(out.as_str(), d.section.as_str(), d.key.as_str()),
        };
        i += 1;
    }
    assert(ds.take(accepted@.len() as int) =~= ds);
    out
}

fn is_stripped(id: &[char], pats: &[Vec<char>]) -> (r: bool)
    ensures
        r == stripped(id@, views(pats@)),
{
    let mut i: usize = 0;
    while i < pats.len()
        invariant
            i <= pats@.len(),
            forall|q: int| 0 <= q < i ==> !contains(id@, #[trigger] views(pats@)[q]),
        decreases pats.len() - i,
    {
        if contains_exec(id, pats[i].as_slice()) {
            assert(contains(id@, views(pats@)[i as int]));
            return true;
        }
        i += 1;
    }
    false
}

fn kept(ls: &Vec<Vec<char>>, s: &[char], pats: &[Vec<char>]) -> (r: Vec<Vec<char>>)
    ensures
        views(r@) == kept_lines(views(ls@), s@, views(pats@)),
{
    let ghost vs = views(ls@);
    let mut r: Vec<Vec<char>> = Vec::new();
    let mut j: usize = 0;
    while j < ls.len()
        invariant
            j <= ls@.len(),
            vs == views(ls@),
            views(r@) == kept_lines(vs.take(j as int), s@, views(pats@)),
        decreases ls.len() - j,
    {
        assert(vs.take(j as int + 1).drop_last() =~= vs.take(j as int));
        assert(vs.take(j as int + 1).last() == ls@[j as int]@);
        let keep = match read_line(ls[j].as_slice()) {
            LineRead::Entry(k, _) => {
                let id = key_id_chars(s, k.as_slice());
                !is_stripped(id.as_slice(), pats)
            },
            _ => true,
        };
        if keep {
            let c = copy_chars(ls[j].as_slice());
            proof {
                lemma_views_push(r@, c);
            }
            r.push(c);
        }
        j += 1;
    }
    assert(vs.take(ls@.len() as int) =~= vs);
    r
}

fn key_id_chars(s: &[char], k: &[char]) -> (r: Vec<char>)
    ensures
        r@ == key_id_spec(s@, k@),
{
    if s.len() == 0 {
        copy_chars(k)
    } else {
        let mut r = copy_chars(s);
        r.push('/');
        let mut q: usize = 0;
        let ghost start = r@;
        while q < k.len()
            invariant
                q <= k@.len(),
                r@ == start + k@.take(q as int),
            decreases k.len() - q,
        {
            r.push(k[q]);
            q += 1;
            assert(r@ =~= start + k@.take(q as int));
        }
        assert(k@.take(k@.len() as int) =~= k@);
        r
    }
}

/// Filter a `dconf dump`, dropping any `key=value` whose `section/key`
/// contains one of the `strip` substrings, and any section left empty by that
/// filtering.
pub fn strip_dump(dump: &str, strip: &[String]) -> (r: String)
    ensures
        r@ == strip_spec(dump@, strip@.map_values(|p: String| p@)),
{
    let mut pats: Vec<Vec<char>> = Vec::new();
    let mut i: usize = 0;
    while i < strip.len()
        invariant
            i <= strip@.len(),
            views(pats@) == strip@.map_values(|p: String| p@).take(i as int),
        decreases strip.len() - i,
    {
        let c = chars_of(strip[i].as_str());
        proof {
            lemma_views_push(pats@, c);
        }
        pats.push(c);
        assert(views(pats@) =~= strip@.map_values(|p: String| p@).take(i as int + 1));
        i += 1;
    }
    assert(strip@.map_values(|p: String| p@).take(strip@.len() as int) =~= strip@.map_values(
        |p: String| p@,
    ));
    let bs = parse_blocks(dump);
    let ghost bv = block_views(bs@);
    let mut out: Vec<Block> = Vec::new();
    let mut b: usize = 0;
    while b < bs.len()
        invariant
            b <= bs@.len(),
            bv == block_views(bs@),
            block_views(out@) == bv.take(b as int).map_values(
                |x: BlockV| (x.0, x.1, kept_lines(x.2, x.1, views(pats@))),
            ),
        decreases bs.len() - b,
    {
        let blk = &bs[b];
        let nb = Block {
            header: copy_chars(blk.header.as_slice()),
            section: copy_chars(blk.section.as_slice()),
            lines: kept(&blk.lines, blk.section.as_slice(), pats.as_slice()),
        };
        let ghost nbv = nb@;
        assert(bv[b as int] == blk@);
        assert(nbv == (bv[b as int].0, bv[b as int].1, kept_lines(bv[b as int].2, bv[b as int].1, views(pats@))));
        let ghost out0 = block_views(out@);
        out.push(nb);
        assert(block_views(out@) =~= out0.push(nbv));
        assert(block_views(out@) =~= bv.take(b as int + 1).map_values(
            |x: BlockV| (x.0, x.1, kept_lines(x.2, x.1, views(pats@))),
        ));
        b += 1;
    }
    assert(bv.take(bs@.len() as int) =~= bv);
    render(&out)
}

/// What a snapshot's live state looks like versus its file.
#[derive(Debug)]
pub enum SnapshotState {
    /// The store cannot be read on this host, and why.
    Unobservable(String),
    /// The snapshot file does not exist yet: nothing has been captured.
    Uncaptured,
    /// Key-level differences (empty when in sync).
    Diffs(Vec<KeyDiff>),
}

/// Compares a declared snapshot's captured file (`None` when it does not
/// exist) with a live dump of its subtree, filtering both through its strip
/// list so a stripped key never reads as drift.
pub fn snapshot_state(file: Option<&str>, live: &str, strip: &[String]) -> (r: SnapshotState)
    ensures
        file is None ==> r is Uncaptured,
        file matches Some(f) ==> (r matches SnapshotState::Diffs(ds) && is_diff_of(
            diff_views(ds@),
            dump_model(strip_spec(f@, strip@.map_values(|p: String| p@))),
            dump_model(strip_spec(live@, strip@.map_values(|p: String| p@))),
        )),
{
    match file {
        None => SnapshotState::Uncaptured,
        Some(f) => {
            let a = strip_dump(f, strip);
            let b = strip_dump(live, strip);
            SnapshotState::Diffs(diff_dumps(a.as_str(), b.as_str()))
        },
    }
}

} // verus!
