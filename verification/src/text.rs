//! Character-level text helpers shared by every parser in the crate.
//!
//! Text is modelled as `Seq<char>`; lines follow `str::lines` (split on `\n`,
//! one trailing `\r` dropped from a line that a `\n` ended, no empty last
//! line), and trimming follows `str::trim` (Unicode `White_Space`).
use vstd::prelude::*;

verus! {

/// Unicode `White_Space`, the set `char::is_whitespace` and `str::trim` use.
pub open spec fn is_ws(c: char) -> bool {
    let u = c as u32;
    (9 <= u && u <= 13) || u == 32 || u == 0x85 || u == 0xA0 || u == 0x1680 || (0x2000 <= u
        && u <= 0x200A) || u == 0x2028 || u == 0x2029 || u == 0x202F || u == 0x205F || u
        == 0x3000
}

pub fn is_whitespace(c: char) -> (b: bool)
    ensures
        b == is_ws(c),
{
    let u = c as u32;
    (9 <= u && u <= 13) || u == 32 || u == 0x85 || u == 0xA0 || u == 0x1680 || (0x2000 <= u
        && u <= 0x200A) || u == 0x2028 || u == 0x2029 || u == 0x202F || u == 0x205F || u
        == 0x3000
}

pub open spec fn trim_end(s: Seq<char>) -> Seq<char>
    decreases s.len(),
{
    if s.len() > 0 && is_ws(s.last()) {
        trim_end(s.drop_last())
    } else {
        s
    }
}

pub open spec fn trim_start(s: Seq<char>) -> Seq<char>
    decreases s.len(),
{
    if s.len() > 0 && is_ws(s[0]) {
        trim_start(s.drop_first())
    } else {
        s
    }
}

/// `str::trim`.
pub open spec fn trim(s: Seq<char>) -> Seq<char> {
    trim_start(trim_end(s))
}

/// All leading copies of `c` removed (`trim_start_matches(c)`).
pub open spec fn strip_lead(s: Seq<char>, c: char) -> Seq<char>
    decreases s.len(),
{
    if s.len() > 0 && s[0] == c {
        strip_lead(s.drop_first(), c)
    } else {
        s
    }
}

/// All trailing copies of `c` removed (`trim_end_matches(c)`).
pub open spec fn strip_trail(s: Seq<char>, c: char) -> Seq<char>
    decreases s.len(),
{
    if s.len() > 0 && s.last() == c {
        strip_trail(s.drop_last(), c)
    } else {
        s
    }
}

pub open spec fn has_char(s: Seq<char>, c: char) -> bool {
    exists|i: int| 0 <= i < s.len() && s[i] == c
}

/// `i` is the position of the first `c` in `s`.
pub open spec fn is_first(s: Seq<char>, c: char, i: int) -> bool {
    0 <= i < s.len() && s[i] == c && forall|j: int| 0 <= j < i ==> s[j] != c
}

/// Position of the first `c` in `s`, or `-1`.
pub open spec fn first_index(s: Seq<char>, c: char) -> int {
    if exists|i: int| is_first(s, c, i) {
        choose|i: int| is_first(s, c, i)
    } else {
        -1
    }
}

/// What `split_once(c)` puts before the separator.
pub open spec fn before(s: Seq<char>, c: char) -> Seq<char> {
    s.subrange(0, first_index(s, c))
}

/// What `split_once(c)` puts after the separator.
pub open spec fn after(s: Seq<char>, c: char) -> Seq<char> {
    s.subrange(first_index(s, c) + 1, s.len() as int)
}

/// `i` is where `p` first occurs in `s`.
pub open spec fn is_first_sub(s: Seq<char>, p: Seq<char>, i: int) -> bool {
    &&& 0 <= i && i + p.len() <= s.len()
    &&& s.subrange(i, i + p.len()) == p
    &&& forall|j: int| 0 <= j < i ==> #[trigger] s.subrange(j, j + p.len()) != p
}

/// Where `p` first occurs in `s` (`s.find(p)`), or `-1`.
pub open spec fn first_sub(s: Seq<char>, p: Seq<char>) -> int {
    if exists|i: int| is_first_sub(s, p, i) {
        choose|i: int| is_first_sub(s, p, i)
    } else {
        -1
    }
}

pub open spec fn has_ws(s: Seq<char>) -> bool {
    exists|i: int| 0 <= i < s.len() && is_ws(s[i])
}

/// `i` is the first whitespace position in `s`.
pub open spec fn is_first_ws(s: Seq<char>, i: int) -> bool {
    0 <= i < s.len() && is_ws(s[i]) && forall|j: int| 0 <= j < i ==> !is_ws(s[j])
}

pub open spec fn first_ws(s: Seq<char>) -> int {
    choose|i: int| is_first_ws(s, i)
}

/// The leading run of ASCII digits.
pub open spec fn take_digits(s: Seq<char>) -> Seq<char>
    decreases s.len(),
{
    if s.len() > 0 && is_digit(s[0]) {
        seq![s[0]] + take_digits(s.drop_first())
    } else {
        Seq::empty()
    }
}

pub open spec fn starts_with(s: Seq<char>, p: Seq<char>) -> bool {
    p.len() <= s.len() && s.subrange(0, p.len() as int) == p
}

pub open spec fn ends_with(s: Seq<char>, p: Seq<char>) -> bool {
    p.len() <= s.len() && s.subrange(s.len() - p.len(), s.len() as int) == p
}

/// `s.contains(p)` for a string pattern.
pub open spec fn contains(s: Seq<char>, p: Seq<char>) -> bool {
    exists|i: int| 0 <= i && i + p.len() <= s.len() && #[trigger] s.subrange(i, i + p.len()) == p
}

/// The pieces `split('\n')` yields: always at least one.
pub open spec fn pieces(s: Seq<char>) -> Seq<Seq<char>>
    decreases s.len(),
{
    if s.len() == 0 {
        seq![Seq::empty()]
    } else {
        let p = pieces(s.drop_last());
        if s.last() == '\n' {
            p.push(Seq::empty())
        } else {
            p.update(p.len() - 1, p.last().push(s.last()))
        }
    }
}

/// The pieces `split(c)` yields: always at least one.
pub open spec fn split_char(s: Seq<char>, c: char) -> Seq<Seq<char>>
    decreases s.len(),
{
    if s.len() == 0 {
        seq![Seq::empty()]
    } else {
        let p = split_char(s.drop_last(), c);
        if s.last() == c {
            p.push(Seq::empty())
        } else {
            p.update(p.len() - 1, p.last().push(s.last()))
        }
    }
}

pub open spec fn is_digit(c: char) -> bool {
    '0' <= c && c <= '9'
}

pub open spec fn all_digits(s: Seq<char>) -> bool {
    forall|i: int| 0 <= i < s.len() ==> is_digit(#[trigger] s[i])
}

pub open spec fn digit_val(c: char) -> nat {
    (c as u32 - '0' as u32) as nat
}

/// The number a string of decimal digits spells.
pub open spec fn digits_value(s: Seq<char>) -> nat
    decreases s.len(),
{
    if s.len() == 0 {
        0
    } else {
        digits_value(s.drop_last()) * 10 + digit_val(s.last())
    }
}

/// `str::parse::<u64>` on text without a sign: `Some` exactly for a non-empty
/// run of digits whose value fits.
pub open spec fn parse_u64_spec(s: Seq<char>) -> Option<u64> {
    if s.len() > 0 && all_digits(s) && digits_value(s) <= u64::MAX {
        Some(digits_value(s) as u64)
    } else {
        None
    }
}

pub open spec fn strip_cr(l: Seq<char>) -> Seq<char> {
    if l.len() > 0 && l.last() == '\r' {
        l.drop_last()
    } else {
        l
    }
}

/// `str::lines`.
pub open spec fn lines_of(s: Seq<char>) -> Seq<Seq<char>> {
    let p = pieces(s);
    let body = p.drop_last().map_values(|l: Seq<char>| strip_cr(l));
    if p.last().len() == 0 {
        body
    } else {
        body.push(p.last())
    }
}

/// Each line followed by a newline.
pub open spec fn join_nl(ls: Seq<Seq<char>>) -> Seq<char>
    decreases ls.len(),
{
    if ls.len() == 0 {
        Seq::empty()
    } else {
        join_nl(ls.drop_last()) + ls.last() + seq!['\n']
    }
}

/// How many bytes UTF-8 spends on `c`.
pub open spec fn utf8_len(c: char) -> nat {
    let u = c as u32;
    if u < 0x80 {
        1
    } else if u < 0x800 {
        2
    } else if u < 0x10000 {
        3
    } else {
        4
    }
}

/// How many bytes UTF-8 spends on `s`.
pub open spec fn byte_len(s: Seq<char>) -> nat
    decreases s.len(),
{
    if s.len() == 0 {
        0
    } else {
        byte_len(s.drop_last()) + utf8_len(s.last())
    }
}

/// Byte offset `n`, or the end if `s` is shorter, falls between two chars of
/// `s`: the place where `&s[..n.min(len)]` can be cut.
pub open spec fn boundary_at(s: Seq<char>, n: nat) -> bool {
    byte_len(s) <= n || exists|k: int| 0 <= k <= s.len() && #[trigger] byte_len(s.take(k)) == n
}

/// `str::parse::<u32>`: an optional leading `+`, then a non-empty run of
/// digits whose value fits.
pub open spec fn parse_u32_spec(s: Seq<char>) -> Option<u32> {
    let t = if s.len() > 1 && s[0] == '+' { s.drop_first() } else { s };
    if t.len() > 0 && all_digits(t) && digits_value(t) <= u32::MAX {
        Some(digits_value(t) as u32)
    } else {
        None
    }
}

pub fn parse_u32(v: &[char]) -> (r: Option<u32>)
    ensures
        r == parse_u32_spec(v@),
{
    let t = if v.len() > 1 && v[0] == '+' {
        let n = v.len();
        let t = slice(v, 1, n);
        assert(t@ =~= v@.drop_first());
        t
    } else {
        copy_chars(v)
    };
    match parse_u64(t.as_slice()) {
        Some(x) => {
            if x <= 0xffff_ffffu64 {
                Some(x as u32)
            } else {
                None
            }
        },
        None => None,
    }
}

/// The digit for `d`.
pub open spec fn digit_char(d: nat) -> char {
    if d == 0 {
        '0'
    } else if d == 1 {
        '1'
    } else if d == 2 {
        '2'
    } else if d == 3 {
        '3'
    } else if d == 4 {
        '4'
    } else if d == 5 {
        '5'
    } else if d == 6 {
        '6'
    } else if d == 7 {
        '7'
    } else if d == 8 {
        '8'
    } else {
        '9'
    }
}

/// `n` in decimal, as `Display` writes it.
pub open spec fn decimal(n: nat) -> Seq<char>
    decreases n,
{
    if n < 10 {
        seq![digit_char(n)]
    } else {
        decimal(n / 10).push(digit_char(n % 10))
    }
}

fn digit_exec(d: u64) -> (c: char)
    requires
        d < 10,
    ensures
        c == digit_char(d as nat),
{
    if d == 0 {
        '0'
    } else if d == 1 {
        '1'
    } else if d == 2 {
        '2'
    } else if d == 3 {
        '3'
    } else if d == 4 {
        '4'
    } else if d == 5 {
        '5'
    } else if d == 6 {
        '6'
    } else if d == 7 {
        '7'
    } else if d == 8 {
        '8'
    } else {
        '9'
    }
}

/// Appends `n` in decimal.
pub fn push_decimal(s: &mut String, n: u64)
    ensures
        final(s)@ == old(s)@ + decimal(n as nat),
    decreases n,
{
    if n < 10 {
        push_char(s, digit_exec(n));
        assert(decimal(n as nat) =~= seq![digit_char(n as nat)]);
    } else {
        push_decimal(s, n / 10);
        push_char(s, digit_exec(n % 10));
    }
}

/// The views of a vector of char vectors.
pub open spec fn views(vs: Seq<Vec<char>>) -> Seq<Seq<char>> {
    vs.map_values(|v: Vec<char>| v@)
}

pub proof fn lemma_views_push(vs: Seq<Vec<char>>, v: Vec<char>)
    ensures
        views(vs.push(v)) == views(vs).push(v@),
{
    assert(views(vs.push(v)) =~= views(vs).push(v@));
}

pub open spec fn no_nl(l: Seq<char>) -> bool {
    !has_char(l, '\n')
}

pub proof fn lemma_pieces_nonempty(s: Seq<char>)
    ensures
        pieces(s).len() >= 1,
    decreases s.len(),
{
    if s.len() > 0 {
        lemma_pieces_nonempty(s.drop_last());
    }
}

pub proof fn lemma_split_nonempty(s: Seq<char>, c: char)
    ensures
        split_char(s, c).len() >= 1,
    decreases s.len(),
{
    if s.len() > 0 {
        lemma_split_nonempty(s.drop_last(), c);
    }
}

/// Appending text without a newline only extends the last piece.
pub proof fn lemma_pieces_extend(x: Seq<char>, y: Seq<char>)
    requires
        no_nl(y),
    ensures
        pieces(x + y) == pieces(x).update(pieces(x).len() - 1, pieces(x).last() + y),
    decreases y.len(),
{
    lemma_pieces_nonempty(x);
    if y.len() == 0 {
        assert(x + y =~= x);
        assert(pieces(x).last() + y =~= pieces(x).last());
        assert(pieces(x).update(pieces(x).len() - 1, pieces(x).last()) =~= pieces(x));
    } else {
        let y0 = y.drop_last();
        assert(no_nl(y0)) by {
            if has_char(y0, '\n') {
                let i = choose|i: int| 0 <= i < y0.len() && y0[i] == '\n';
                assert(y[i] == '\n');
            }
        }
        lemma_pieces_extend(x, y0);
        assert((x + y).drop_last() =~= x + y0);
        assert(y.last() != '\n') by {
            assert(y[y.len() - 1] == y.last());
        }
        lemma_pieces_nonempty(x + y0);
        assert(pieces(x).last() + y0 + seq![y.last()] =~= pieces(x).last() + y);
        assert((pieces(x).last() + y0).push(y.last()) =~= pieces(x).last() + y);
        assert(pieces(x + y) =~= pieces(x).update(pieces(x).len() - 1, pieces(x).last() + y));
    }
}

/// Lines joined with newlines split back into the same lines, each possibly
/// losing one trailing `\r`.
pub proof fn lemma_lines_of_join(ls: Seq<Seq<char>>)
    requires
        forall|i: int| 0 <= i < ls.len() ==> no_nl(#[trigger] ls[i]),
    ensures
        pieces(join_nl(ls)) == ls.push(Seq::empty()),
        lines_of(join_nl(ls)) == ls.map_values(|l: Seq<char>| strip_cr(l)),
    decreases ls.len(),
{
    if ls.len() == 0 {
        assert(pieces(join_nl(ls)) =~= ls.push(Seq::empty()));
        assert(lines_of(join_nl(ls)) =~= ls.map_values(|l: Seq<char>| strip_cr(l)));
    } else {
        let init = ls.drop_last();
        assert forall|i: int| 0 <= i < init.len() implies no_nl(#[trigger] init[i]) by {
            assert(init[i] == ls[i]);
        }
        lemma_lines_of_join(init);
        let x = join_nl(init);
        let l = ls.last();
        assert(no_nl(l)) by {
            assert(ls[ls.len() - 1] == l);
        }
        lemma_pieces_extend(x, l);
        let j = join_nl(ls);
        assert(j == x + l + seq!['\n']);
        assert(j.drop_last() =~= x + l);
        assert(j.last() == '\n');
        assert(pieces(x).update(pieces(x).len() - 1, pieces(x).last() + l) =~= ls);
        assert(pieces(j) =~= ls.push(Seq::empty()));
        assert(lines_of(j) =~= ls.map_values(|l: Seq<char>| strip_cr(l)));
    }
}

/// A `\r` that `lines` drops is whitespace to `trim` anyway.
pub proof fn lemma_trim_strip_cr(l: Seq<char>)
    ensures
        trim(strip_cr(l)) == trim(l),
{
    if l.len() > 0 && l.last() == '\r' {
        assert(is_ws('\r'));
        assert(trim_end(l) == trim_end(l.drop_last()));
    }
}

pub proof fn lemma_trim_end_is_prefix(s: Seq<char>)
    ensures
        trim_end(s).len() <= s.len(),
        trim_end(s) == s.subrange(0, trim_end(s).len() as int),
    decreases s.len(),
{
    if s.len() > 0 && is_ws(s.last()) {
        lemma_trim_end_is_prefix(s.drop_last());
        assert(trim_end(s) =~= s.subrange(0, trim_end(s).len() as int));
    } else {
        assert(s =~= s.subrange(0, s.len() as int));
    }
}

pub proof fn lemma_trim_start_is_suffix(s: Seq<char>)
    ensures
        trim_start(s).len() <= s.len(),
        trim_start(s) == s.subrange(s.len() - trim_start(s).len(), s.len() as int),
    decreases s.len(),
{
    if s.len() > 0 && is_ws(s[0]) {
        lemma_trim_start_is_suffix(s.drop_first());
        assert(trim_start(s) =~= s.subrange(
            s.len() - trim_start(s).len(),
            s.len() as int,
        ));
    } else {
        assert(s =~= s.subrange(0, s.len() as int));
    }
}

/// A trimmed text starts and ends with non-whitespace.
pub proof fn lemma_trim_ends(x: Seq<char>)
    ensures
        trim(x).len() > 0 ==> !is_ws(trim(x)[0]) && !is_ws(trim(x).last()),
        trim(x).len() <= x.len(),
        exists|a: int, b: int| 0 <= a <= b <= x.len() && trim(x) == x.subrange(a, b),
        x.len() > 0 && !is_ws(x[0]) && trim(x).len() > 0 ==> trim(x)[0] == x[0],
        x.len() > 0 && !is_ws(x.last()) && trim(x).len() > 0 ==> trim(x).last() == x.last(),
{
    let e = trim_end(x);
    lemma_trim_end_is_prefix(x);
    lemma_trim_start_is_suffix(e);
    lemma_trim_end_last(x);
    lemma_trim_start_first(e);
    let t = trim(x);
    let a = e.len() - t.len();
    assert(t == x.subrange(a, e.len() as int)) by {
        assert(t =~= x.subrange(a, e.len() as int));
    }
    if t.len() > 0 {
        assert(t.last() == e.last());
    }
    if x.len() > 0 && !is_ws(x[0]) && t.len() > 0 {
        assert(e[0] == x[0]);
        assert(trim_start(e) == e);
    }
    if x.len() > 0 && !is_ws(x.last()) && t.len() > 0 {
        assert(e == x);
    }
}

proof fn lemma_trim_end_last(x: Seq<char>)
    ensures
        trim_end(x).len() > 0 ==> !is_ws(trim_end(x).last()),
    decreases x.len(),
{
    if x.len() > 0 && is_ws(x.last()) {
        lemma_trim_end_last(x.drop_last());
    }
}

proof fn lemma_trim_start_first(x: Seq<char>)
    ensures
        trim_start(x).len() > 0 ==> !is_ws(trim_start(x)[0]),
    decreases x.len(),
{
    if x.len() > 0 && is_ws(x[0]) {
        lemma_trim_start_first(x.drop_first());
    }
}

pub proof fn lemma_first_unique(s: Seq<char>, c: char, i: int)
    requires
        is_first(s, c, i),
    ensures
        first_index(s, c) == i,
{
    let k = first_index(s, c);
    assert(is_first(s, c, k));
    if k < i {
        assert(s[k] == c);
    } else if i < k {
        assert(s[i] == c);
    }
}

pub proof fn lemma_no_first(s: Seq<char>, c: char)
    requires
        !has_char(s, c),
    ensures
        first_index(s, c) == -1,
{
    if exists|i: int| is_first(s, c, i) {
        let i = choose|i: int| is_first(s, c, i);
        assert(s[i] == c);
    }
}

pub proof fn lemma_has_first(s: Seq<char>, c: char)
    requires
        has_char(s, c),
    ensures
        is_first(s, c, first_index(s, c)),
    decreases s.len(),
{
    if s[0] == c {
        assert(is_first(s, c, 0));
        lemma_first_unique(s, c, 0);
    } else {
        let t = s.drop_first();
        let i = choose|i: int| 0 <= i < s.len() && s[i] == c;
        assert(t[i - 1] == c);
        lemma_has_first(t, c);
        let f = first_index(t, c);
        assert forall|j: int| 0 <= j < f + 1 implies s[j] != c by {
            if j > 0 {
                assert(s[j] == t[j - 1]);
            }
        }
        assert(is_first(s, c, f + 1));
        lemma_first_unique(s, c, f + 1);
    }
}


/// Lexicographic order on chars, which is the order `str` compares in
/// (UTF-8 preserves code point order).
pub open spec fn lex_lt(a: Seq<char>, b: Seq<char>) -> bool
    decreases a.len(),
{
    if a.len() == 0 {
        b.len() > 0
    } else if b.len() == 0 {
        false
    } else if a[0] != b[0] {
        a[0] < b[0]
    } else {
        lex_lt(a.drop_first(), b.drop_first())
    }
}

pub proof fn lemma_lex_irrefl(a: Seq<char>)
    ensures
        !lex_lt(a, a),
    decreases a.len(),
{
    if a.len() > 0 {
        lemma_lex_irrefl(a.drop_first());
    }
}

pub proof fn lemma_lex_total(a: Seq<char>, b: Seq<char>)
    ensures
        a == b || lex_lt(a, b) || lex_lt(b, a),
        !(lex_lt(a, b) && lex_lt(b, a)),
    decreases a.len(),
{
    if a.len() > 0 && b.len() > 0 {
        if a[0] == b[0] {
            lemma_lex_total(a.drop_first(), b.drop_first());
            if a.drop_first() == b.drop_first() {
                assert(a =~= seq![a[0]] + a.drop_first());
                assert(b =~= seq![b[0]] + b.drop_first());
            }
        } else {
        }
    } else if a.len() == 0 && b.len() == 0 {
        assert(a =~= b);
    }
}

pub proof fn lemma_lex_trans(a: Seq<char>, b: Seq<char>, c: Seq<char>)
    requires
        lex_lt(a, b),
        lex_lt(b, c),
    ensures
        lex_lt(a, c),
    decreases a.len(),
{
    if a.len() > 0 && b.len() > 0 && c.len() > 0 {
        if a[0] == b[0] && b[0] == c[0] {
            lemma_lex_trans(a.drop_first(), b.drop_first(), c.drop_first());
        }
    }
}

pub open spec fn sorted_strs(v: Seq<Seq<char>>) -> bool {
    forall|i: int, j: int| 0 <= i < j < v.len() ==> lex_lt(#[trigger] v[i], #[trigger] v[j])
}

/// Inserts `x` into a strictly sorted list unless it is already there.
pub fn insert_sorted(v: &mut Vec<Vec<char>>, x: Vec<char>)
    requires
        sorted_strs(views(old(v)@)),
    ensures
        sorted_strs(views(final(v)@)),
        views(final(v)@).to_set() == views(old(v)@).to_set().insert(x@),
{
    let ghost old_v = views(v@);
    let mut p: usize = 0;
    while p < v.len() && lex_less(v[p].as_slice(), x.as_slice())
        invariant
            p <= v@.len(),
            views(v@) == old_v,
            sorted_strs(old_v),
            forall|j: int| 0 <= j < p ==> lex_lt(#[trigger] old_v[j], x@),
        decreases v.len() - p,
    {
        p += 1;
    }
    if p < v.len() && same(v[p].as_slice(), x.as_slice()) {
        proof {
            assert(old_v.to_set().insert(x@) =~= old_v.to_set()) by {
                assert(old_v[p as int] == x@);
            }
        }
        return;
    }
    let ghost xv = x@;
    v.insert(p, x);
    proof {
        let nv = views(v@);
        assert(nv =~= old_v.insert(p as int, xv));
        if p < old_v.len() {
            lemma_lex_total(xv, old_v[p as int]);
        }
        assert forall|i: int, j: int| 0 <= i < j < nv.len() implies lex_lt(#[trigger] nv[i], #[trigger] nv[j]) by {
            if j < p {
            } else if j == p {
            } else if i < p {
                assert(nv[j] == old_v[j - 1]);
                if j - 1 > p {
                    lemma_lex_trans(xv, old_v[p as int], old_v[j - 1]);
                }
                lemma_lex_trans(nv[i], xv, nv[j]);
            } else if i == p {
                assert(nv[j] == old_v[j - 1]);
                if j - 1 > p {
                    lemma_lex_trans(xv, old_v[p as int], old_v[j - 1]);
                }
            } else {
                assert(nv[i] == old_v[i - 1]);
                assert(nv[j] == old_v[j - 1]);
            }
        }
        assert forall|y: Seq<char>| nv.to_set().contains(y) <==> old_v.to_set().insert(xv).contains(y) by {
            if nv.contains(y) {
                let i = choose|i: int| 0 <= i < nv.len() && nv[i] == y;
                if i < p {
                    assert(old_v[i] == y);
                } else if i > p {
                    assert(old_v[i - 1] == y);
                }
            }
            if old_v.contains(y) {
                let i = choose|i: int| 0 <= i < old_v.len() && old_v[i] == y;
                if i < p {
                    assert(nv[i] == y);
                } else {
                    assert(nv[i + 1] == y);
                }
            }
            if y == xv {
                assert(nv[p as int] == y);
            }
        }
        assert(nv.to_set() =~= old_v.to_set().insert(xv));
    }
}

/// `a < b` on char sequences.
pub fn lex_less(a: &[char], b: &[char]) -> (r: bool)
    ensures
        r == lex_lt(a@, b@),
{
    let mut i: usize = 0;
    assert(a@ =~= a@.subrange(0, a@.len() as int));
    assert(b@ =~= b@.subrange(0, b@.len() as int));
    while i < a.len() && i < b.len() && a[i] == b[i]
        invariant
            i <= a.len(),
            i <= b.len(),
            lex_lt(a@, b@) == lex_lt(a@.subrange(i as int, a@.len() as int), b@.subrange(i as int, b@.len() as int)),
        decreases a.len() - i,
    {
        assert(a@.subrange(i as int, a@.len() as int).drop_first() =~= a@.subrange(i as int + 1, a@.len() as int));
        assert(b@.subrange(i as int, b@.len() as int).drop_first() =~= b@.subrange(i as int + 1, b@.len() as int));
        i += 1;
    }
    if i == a.len() {
        i < b.len()
    } else if i == b.len() {
        false
    } else {
        a[i] < b[i]
    }
}

// ---------------------------------------------------------------------------
// Executable helpers.
/// Appends one char to a `String`.
#[verifier::external_body]
pub(crate) fn push_char(s: &mut String, c: char)
    ensures
        final(s)@ == old(s)@.push(c),
{
    s.push(c);
}

/// The chars of a `&str`, as a vector.
pub fn chars_of(s: &str) -> (v: Vec<char>)
    ensures
        v@ == s@,
{
    let mut v: Vec<char> = Vec::new();
    for c in it: s.chars()
        invariant
            v@ == it.seq().take(it.index() as int),
    {
        v.push(c);
        proof {
            assert(v@ =~= it.seq().take(it.index() as int + 1));
        }
    }
    v
}

/// A `String` holding the given chars.
pub fn string_of(v: &[char]) -> (s: String)
    ensures
        s@ == v@,
{
    let mut s = String::new();
    let mut i: usize = 0;
    while i < v.len()
        invariant
            i <= v.len(),
            s@ == v@.subrange(0, i as int),
        decreases v.len() - i,
    {
        push_char(&mut s, v[i]);
        i += 1;
        assert(s@ =~= v@.subrange(0, i as int));
    }
    assert(v@ =~= v@.subrange(0, v.len() as int));
    s
}

/// Appends `v` to `s`.
pub fn push_chars(s: &mut String, v: &[char])
    ensures
        final(s)@ == old(s)@ + v@,
{
    let mut i: usize = 0;
    while i < v.len()
        invariant
            i <= v.len(),
            s@ == old(s)@ + v@.subrange(0, i as int),
        decreases v.len() - i,
    {
        push_char(s, v[i]);
        i += 1;
        assert(s@ =~= old(s)@ + v@.subrange(0, i as int));
    }
    assert(v@ =~= v@.subrange(0, v.len() as int));
}

/// Appends the chars of `t` to `s`.
pub fn push_str(s: &mut String, t: &str)
    ensures
        final(s)@ == old(s)@ + t@,
{
    let v = chars_of(t);
    push_chars(s, v.as_slice());
}

/// A copy of `v[lo..hi]`.
pub fn slice(v: &[char], lo: usize, hi: usize) -> (r: Vec<char>)
    requires
        lo <= hi <= v@.len(),
    ensures
        r@ == v@.subrange(lo as int, hi as int),
{
    let mut r: Vec<char> = Vec::new();
    let mut i = lo;
    while i < hi
        invariant
            lo <= i <= hi <= v@.len(),
            r@ == v@.subrange(lo as int, i as int),
        decreases hi - i,
    {
        r.push(v[i]);
        i += 1;
        assert(r@ =~= v@.subrange(lo as int, i as int));
    }
    r
}

/// A copy of `v`.
pub fn copy_chars(v: &[char]) -> (r: Vec<char>)
    ensures
        r@ == v@,
{
    let r = slice(v, 0, v.len());
    assert(v@.subrange(0, v@.len() as int) =~= v@);
    r
}

/// `a == b` on char sequences.
pub fn same(a: &[char], b: &[char]) -> (r: bool)
    ensures
        r == (a@ == b@),
{
    if a.len() != b.len() {
        return false;
    }
    let mut i: usize = 0;
    while i < a.len()
        invariant
            i <= a.len() == b.len(),
            forall|j: int| 0 <= j < i ==> a@[j] == b@[j],
        decreases a.len() - i,
    {
        if a[i] != b[i] {
            return false;
        }
        i += 1;
    }
    assert(a@ =~= b@);
    true
}

/// `str::trim`, on chars.
pub fn trimmed(v: &[char]) -> (r: Vec<char>)
    ensures
        r@ == trim(v@),
{
    let mut e: usize = v.len();
    assert(v@ =~= v@.subrange(0, v.len() as int));
    while e > 0 && is_whitespace(v[e - 1])
        invariant
            e <= v.len(),
            trim_end(v@) == trim_end(v@.subrange(0, e as int)),
        decreases e,
    {
        assert(v@.subrange(0, e as int).drop_last() =~= v@.subrange(0, e as int - 1));
        e -= 1;
    }
    assert(v@ =~= v@.subrange(0, v.len() as int));
    let mut b: usize = 0;
    while b < e && is_whitespace(v[b])
        invariant
            b <= e <= v.len(),
            trim_end(v@) == v@.subrange(0, e as int),
            trim(v@) == trim_start(v@.subrange(b as int, e as int)),
        decreases e - b,
    {
        assert(v@.subrange(b as int, e as int).drop_first() =~= v@.subrange(
            b as int + 1,
            e as int,
        ));
        b += 1;
    }
    slice(v, b, e)
}

/// Position of the first `c`, if any (`find(c)`).
pub fn find_char(v: &[char], c: char) -> (r: Option<usize>)
    ensures
        match r {
            Some(i) => is_first(v@, c, i as int) && first_index(v@, c) == i,
            None => !has_char(v@, c) && first_index(v@, c) == -1,
        },
{
    let mut i: usize = 0;
    while i < v.len()
        invariant
            i <= v.len(),
            forall|j: int| 0 <= j < i ==> v@[j] != c,
        decreases v.len() - i,
    {
        if v[i] == c {
            proof {
                lemma_first_unique(v@, c, i as int);
            }
            return Some(i);
        }
        i += 1;
    }
    proof {
        lemma_no_first(v@, c);
    }
    None
}

/// Where `p` first occurs in `s`, if anywhere.
pub fn find_sub(s: &[char], p: &[char]) -> (r: Option<usize>)
    ensures
        match r {
            Some(i) => is_first_sub(s@, p@, i as int) && first_sub(s@, p@) == i,
            None => !contains(s@, p@) && first_sub(s@, p@) == -1,
        },
{
    if p.len() > s.len() {
        proof {
            if exists|i: int| is_first_sub(s@, p@, i) {
                let i = choose|i: int| is_first_sub(s@, p@, i);
            }
        }
        return None;
    }
    let mut i: usize = 0;
    while i <= s.len() - p.len()
        invariant
            p.len() <= s.len(),
            i <= s.len() - p.len() + 1,
            forall|j: int| 0 <= j < i ==> #[trigger] s@.subrange(j, j + p@.len()) != p@,
        decreases s.len() - i,
    {
        let mut k: usize = 0;
        let mut ok = true;
        while k < p.len()
            invariant
                i + p.len() <= s.len(),
                k <= p.len(),
                ok == (forall|m: int| 0 <= m < k ==> s@[i + m] == p@[m]),
            decreases p.len() - k,
        {
            if s[i + k] != p[k] {
                ok = false;
            }
            k += 1;
        }
        if ok {
            assert(s@.subrange(i as int, i + p@.len()) =~= p@);
            proof {
                assert(is_first_sub(s@, p@, i as int));
                let c = choose|c: int| is_first_sub(s@, p@, c);
                if c < i {
                    assert(s@.subrange(c, c + p@.len()) != p@);
                } else if c > i {
                    assert(s@.subrange(i as int, i + p@.len()) != p@);
                }
            }
            return Some(i);
        } else {
            assert(s@.subrange(i as int, i + p@.len()) != p@) by {
                let m = choose|m: int| 0 <= m < p.len() && s@[i + m] != p@[m];
                assert(s@.subrange(i as int, i + p@.len())[m] == s@[i + m]);
            }
        }
        i += 1;
    }
    proof {
        if contains(s@, p@) {
            let j = choose|j: int|
                0 <= j && j + p@.len() <= s@.len() && #[trigger] s@.subrange(j, j + p@.len()) == p@;
            assert(j < i);
        }
        if exists|c: int| is_first_sub(s@, p@, c) {
            let c = choose|c: int| is_first_sub(s@, p@, c);
            assert(c < i);
        }
    }
    None
}

/// Position of the first whitespace char, if any.
pub fn find_ws(v: &[char]) -> (r: Option<usize>)
    ensures
        match r {
            Some(i) => is_first_ws(v@, i as int) && first_ws(v@) == i,
            None => !has_ws(v@),
        },
{
    let mut i: usize = 0;
    while i < v.len()
        invariant
            i <= v.len(),
            forall|j: int| 0 <= j < i ==> !is_ws(v@[j]),
        decreases v.len() - i,
    {
        if is_whitespace(v[i]) {
            proof {
                assert(is_first_ws(v@, i as int));
                let c = choose|c: int| is_first_ws(v@, c);
                if c < i {
                } else if c > i {
                    assert(!is_ws(v@[i as int]));
                }
            }
            return Some(i);
        }
        i += 1;
    }
    None
}

/// The leading run of ASCII digits, copied.
pub fn take_digits_exec(v: &[char]) -> (r: Vec<char>)
    ensures
        r@ == take_digits(v@),
{
    let mut r: Vec<char> = Vec::new();
    let mut i: usize = 0;
    assert(v@.subrange(0, v@.len() as int) =~= v@);
    while i < v.len() && '0' <= v[i] && v[i] <= '9'
        invariant
            i <= v@.len(),
            take_digits(v@) == r@ + take_digits(v@.subrange(i as int, v@.len() as int)),
        decreases v.len() - i,
    {
        let ghost rest = v@.subrange(i as int, v@.len() as int);
        assert(rest.drop_first() =~= v@.subrange(i as int + 1, v@.len() as int));
        r.push(v[i]);
        assert(r@ + take_digits(rest.drop_first()) =~= r@.drop_last() + (seq![rest[0]] + take_digits(rest.drop_first())));
        i += 1;
    }
    assert(r@ + take_digits(v@.subrange(i as int, v@.len() as int)) =~= r@);
    r
}

/// `str::trim_start`, on chars.
pub fn trimmed_start(v: &[char]) -> (r: Vec<char>)
    ensures
        r@ == trim_start(v@),
{
    let mut b: usize = 0;
    assert(v@ =~= v@.subrange(0, v@.len() as int));
    while b < v.len() && is_whitespace(v[b])
        invariant
            b <= v.len(),
            trim_start(v@) == trim_start(v@.subrange(b as int, v@.len() as int)),
        decreases v.len() - b,
    {
        assert(v@.subrange(b as int, v@.len() as int).drop_first() =~= v@.subrange(
            b as int + 1,
            v@.len() as int,
        ));
        b += 1;
    }
    slice(v, b, v.len())
}

/// `s.contains(p)`.
pub fn contains_exec(s: &[char], p: &[char]) -> (r: bool)
    ensures
        r == contains(s@, p@),
{
    if p.len() > s.len() {
        return false;
    }
    let mut i: usize = 0;
    while i <= s.len() - p.len()
        invariant
            p.len() <= s.len(),
            i <= s.len() - p.len() + 1,
            forall|j: int|
                0 <= j < i ==> #[trigger] s@.subrange(j, j + p@.len()) != p@,
        decreases s.len() - i,
    {
        let mut k: usize = 0;
        let mut ok = true;
        while k < p.len()
            invariant
                i + p.len() <= s.len(),
                k <= p.len(),
                ok == (forall|m: int| 0 <= m < k ==> s@[i + m] == p@[m]),
            decreases p.len() - k,
        {
            if s[i + k] != p[k] {
                ok = false;
            }
            k += 1;
        }
        if ok {
            assert(s@.subrange(i as int, i + p@.len()) =~= p@);
            return true;
        } else {
            assert(s@.subrange(i as int, i + p@.len()) != p@) by {
                let m = choose|m: int| 0 <= m < p.len() && s@[i + m] != p@[m];
                assert(s@.subrange(i as int, i + p@.len())[m] == s@[i + m]);
            }
        }
        i += 1;
    }
    assert(!contains(s@, p@)) by {
        if contains(s@, p@) {
            let j = choose|j: int|
                0 <= j && j + p@.len() <= s@.len() && #[trigger] s@.subrange(j, j + p@.len())
                    == p@;
            assert(j < i);
        }
    }
    false
}

/// `split(c)`, on chars.
pub fn split_exec(v: &[char], c: char) -> (r: Vec<Vec<char>>)
    ensures
        views(r@) == split_char(v@, c),
{
    let mut out: Vec<Vec<char>> = Vec::new();
    let mut cur: Vec<char> = Vec::new();
    let mut i: usize = 0;
    while i < v.len()
        invariant
            i <= v.len(),
            split_char(v@.subrange(0, i as int), c) == views(out@).push(cur@),
        decreases v.len() - i,
    {
        let ghost prev = v@.subrange(0, i as int);
        assert(v@.subrange(0, i as int + 1).drop_last() =~= prev);
        if v[i] == c {
            let done = cur;
            proof {
                lemma_views_push(out@, done);
            }
            out.push(done);
            cur = Vec::new();
            proof {
                assert(split_char(v@.subrange(0, i as int + 1), c) =~= views(out@).push(cur@));
            }
        } else {
            cur.push(v[i]);
            proof {
                assert(split_char(v@.subrange(0, i as int + 1), c) =~= views(out@).push(cur@));
            }
        }
        i += 1;
    }
    assert(v@.subrange(0, v.len() as int) =~= v@);
    proof {
        lemma_views_push(out@, cur);
    }
    out.push(cur);
    out
}

/// `str::parse::<u64>` on unsigned text.
pub fn parse_u64(v: &[char]) -> (r: Option<u64>)
    ensures
        r == parse_u64_spec(v@),
{
    if v.len() == 0 {
        return None;
    }
    let mut acc: u64 = 0;
    let mut i: usize = 0;
    while i < v.len()
        invariant
            i <= v.len(),
            all_digits(v@.subrange(0, i as int)),
            acc as nat == digits_value(v@.subrange(0, i as int)),
        decreases v.len() - i,
    {
        let d = v[i];
        assert(v@.subrange(0, i as int + 1).drop_last() =~= v@.subrange(0, i as int));
        if !('0' <= d && d <= '9') {
            proof {
                assert(!is_digit(v@[i as int]));
                assert(!all_digits(v@));
            }
            return None;
        }
        let dv = (d as u32 - '0' as u32) as u64;
        if acc > (u64::MAX - dv) / 10 {
            proof {
                lemma_digits_prefix_bound(v@, i as int + 1);
                assert(digits_value(v@.subrange(0, i as int + 1)) == acc * 10 + dv);
                assert(acc * 10 + dv > u64::MAX) by (nonlinear_arith)
                    requires
                        acc > (u64::MAX - dv) / 10,
                        dv <= 9,
                ;
            }
            return None;
        }
        assert(acc * 10 + dv <= u64::MAX) by (nonlinear_arith)
            requires
                acc <= (u64::MAX - dv) / 10,
                dv <= 9,
        ;
        acc = acc * 10 + dv;
        i += 1;
    }
    assert(v@.subrange(0, v.len() as int) =~= v@);
    Some(acc)
}

/// A longer run of digits is worth at least as much as its prefix.
pub proof fn lemma_digits_prefix_bound(s: Seq<char>, n: int)
    requires
        0 <= n <= s.len(),
        all_digits(s.subrange(0, n)),
    ensures
        all_digits(s) ==> digits_value(s) >= digits_value(s.subrange(0, n)),
    decreases s.len() - n,
{
    if n < s.len() && all_digits(s) {
        assert(all_digits(s.subrange(0, n + 1)));
        lemma_digits_prefix_bound(s, n + 1);
        assert(s.subrange(0, n + 1).drop_last() =~= s.subrange(0, n));
    } else if n == s.len() {
        assert(s.subrange(0, n) =~= s);
    }
}

/// `str::lines`, on chars.
pub fn lines(v: &[char]) -> (r: Vec<Vec<char>>)
    ensures
        views(r@) == lines_of(v@),
{
    let mut out: Vec<Vec<char>> = Vec::new();
    let mut cur: Vec<char> = Vec::new();
    let ghost mut raw: Seq<Seq<char>> = Seq::empty();
    let mut i: usize = 0;
    while i < v.len()
        invariant
            i <= v.len(),
            pieces(v@.subrange(0, i as int)) == raw.push(cur@),
            out@.len() == raw.len(),
            forall|j: int| 0 <= j < out@.len() ==> #[trigger] out@[j]@ == strip_cr(raw[j]),
        decreases v.len() - i,
    {
        let ghost prev = v@.subrange(0, i as int);
        assert(v@.subrange(0, i as int + 1).drop_last() =~= prev);
        if v[i] == '\n' {
            let ghost done = cur@;
            let mut line = cur;
            if line.len() > 0 && line[line.len() - 1] == '\r' {
                line.pop();
            }
            assert(line@ == strip_cr(done));
            out.push(line);
            cur = Vec::new();
            proof {
                raw = raw.push(done);
                assert(pieces(v@.subrange(0, i as int + 1)) =~= raw.push(cur@));
            }
        } else {
            cur.push(v[i]);
            proof {
                assert(pieces(v@.subrange(0, i as int + 1)) =~= raw.push(cur@));
            }
        }
        i += 1;
    }
    assert(v@.subrange(0, v.len() as int) =~= v@);
    let ghost p = pieces(v@);
    assert(p.drop_last() =~= raw);
    assert(views(out@) =~= raw.map_values(|l: Seq<char>| strip_cr(l)));
    if cur.len() > 0 {
        out.push(cur);
    }
    assert(views(out@) =~= lines_of(v@));
    out
}

} // verus!
