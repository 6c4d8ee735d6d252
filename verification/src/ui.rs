//! The human renderers' palette and aligned columns. Whether colour is on,
//! and how wide the terminal is, are read by the caller and passed in.
use vstd::prelude::*;
use crate::text::{chars_of, has_char, push_chars, push_str, slice, string_of};

verus! {

// ---------------------------------------------------------------------------
// Colour.

/// `s` wrapped in the ANSI escape `code` when colour is on, else `s`.
pub open spec fn paint_spec(code: Seq<char>, s: Seq<char>, enabled: bool) -> Seq<char> {
    if enabled {
        seq!['\u{1b}', '['] + code + seq!['m'] + s + seq!['\u{1b}', '[', '0', 'm']
    } else {
        s
    }
}

fn paint(code: &str, s: &str, enabled: bool) -> (r: String)
    ensures
        r@ == paint_spec(code@, s@, enabled),
{
    let mut out = String::new();
    if enabled {
        push_chars(&mut out, &['\u{1b}', '[']);
        push_str(&mut out, code);
        push_chars(&mut out, &['m']);
        push_str(&mut out, s);
        push_chars(&mut out, &['\u{1b}', '[', '0', 'm']);
    } else {
        push_str(&mut out, s);
    }
    out
}

pub fn green(s: &str, enabled: bool) -> (r: String)
    ensures
        r@ == paint_spec("1;32"@, s@, enabled),
{
    paint("1;32", s, enabled)
}

pub fn red(s: &str, enabled: bool) -> (r: String)
    ensures
        r@ == paint_spec("1;31"@, s@, enabled),
{
    paint("1;31", s, enabled)
}

pub fn yellow(s: &str, enabled: bool) -> (r: String)
    ensures
        r@ == paint_spec("1;33"@, s@, enabled),
{
    paint("1;33", s, enabled)
}

pub fn cyan(s: &str, enabled: bool) -> (r: String)
    ensures
        r@ == paint_spec("1;36"@, s@, enabled),
{
    paint("1;36", s, enabled)
}

pub fn bold(s: &str, enabled: bool) -> (r: String)
    ensures
        r@ == paint_spec("1"@, s@, enabled),
{
    paint("1", s, enabled)
}

pub fn dim(s: &str, enabled: bool) -> (r: String)
    ensures
        r@ == paint_spec("2"@, s@, enabled),
{
    paint("2", s, enabled)
}

// ---------------------------------------------------------------------------
// Display width.

/// How many terminal columns a text takes.
pub uninterp spec fn display_width(s: Seq<char>) -> nat;

/// `console::measure_text_width`: the contract names the result and claims
/// nothing more of it.
#[verifier::external_body]
fn measure_text_width(s: &str) -> (r: usize)
    ensures
        r == display_width(s@),
{
    console::measure_text_width(s)
}

/// Display width, not byte length.
pub fn width(s: &str) -> (r: usize)
    ensures
        r == display_width(s@),
{
    measure_text_width(s)
}

/// Gap between columns.
pub const GAP: usize = 2;

/// The narrowest a flexing column is squeezed to.
pub const FLEX_MIN: usize = 12;

/// `s` shortened to `max` columns with the cut marked `…`: a path-ish text
/// (one with a `/`, or starting `~`) loses its head, anything else its
/// tail. A text that fits is unchanged.
pub open spec fn elide_spec(s: Seq<char>, max: nat) -> Seq<char> {
    if display_width(s) <= max {
        s
    } else if max <= 1 {
        seq!['…']
    } else {
        let keep = (max - 1) as int;
        if has_char(s, '/') || (s.len() > 0 && s[0] == '~') {
            seq!['…'] + s.subrange(if s.len() >= keep { s.len() - keep } else { 0 }, s.len() as int)
        } else {
            s.subrange(0, if keep < s.len() { keep } else { s.len() as int }) + seq!['…']
        }
    }
}

/// Shorten to `max` columns, marking the cut with `…`.
pub fn elide(s: &str, max: usize) -> (r: String)
    ensures
        r@ == elide_spec(s@, max as nat),
{
    if width(s) <= max {
        return string_of(chars_of(s).as_slice());
    }
    if max <= 1 {
        return string_of(&['…']);
    }
    let keep = max - 1;
    let chars = chars_of(s);
    let n = chars.len();
    let pathish = crate::text::find_char(chars.as_slice(), '/').is_some() || (n > 0 && chars[0] == '~');
    let mut out = String::new();
    if pathish {
        let from = if n >= keep { n - keep } else { 0 };
        push_chars(&mut out, &['…']);
        push_chars(&mut out, slice(chars.as_slice(), from, n).as_slice());
    } else {
        let to = if keep < n { keep } else { n };
        push_chars(&mut out, slice(chars.as_slice(), 0, to).as_slice());
        push_chars(&mut out, &['…']);
    }
    out
}

// ---------------------------------------------------------------------------
// Columns.

/// The widest row's cell count.
pub open spec fn max_len(rows: Seq<Vec<String>>) -> nat
    decreases rows.len(),
{
    if rows.len() == 0 {
        0
    } else {
        let m = max_len(rows.drop_last());
        if rows.last()@.len() > m { rows.last()@.len() } else { m }
    }
}

/// The widest cell of column `i`.
pub open spec fn col_max(rows: Seq<Vec<String>>, i: int) -> nat
    decreases rows.len(),
{
    if rows.len() == 0 {
        0
    } else {
        let m = col_max(rows.drop_last(), i);
        let w = if 0 <= i < rows.last()@.len() { display_width(rows.last()@[i]@) } else { 0 };
        if w > m { w } else { m }
    }
}

/// A column's width under its cap (a cap of 0 is none).
pub open spec fn capped(w: nat, caps: Seq<usize>, i: int) -> nat {
    if 0 <= i < caps.len() && caps[i] > 0 && caps[i] < w { caps[i] as nat } else { w }
}

/// Column widths: each column's widest cell, under its cap; the last
/// column unpadded (width 0).
pub open spec fn widths_spec(rows: Seq<Vec<String>>, caps: Seq<usize>) -> Seq<nat> {
    Seq::new(max_len(rows), |i: int| if i == max_len(rows) - 1 { 0 } else { capped(col_max(rows, i), caps, i) })
}

/// Column widths for a table printed one row at a time.
pub struct Columns {
    widths: Vec<usize>,
    /// Printable width before column 0.
    prefix: usize,
    /// The column that gives way when a line would wrap.
    flex: usize,
}

impl View for Columns {
    type V = (Seq<nat>, nat, nat);

    closed spec fn view(&self) -> (Seq<nat>, nat, nat) {
        (self.widths@.map_values(|w: usize| w as nat), self.prefix as nat, self.flex as nat)
    }
}

proof fn lemma_max_len_bound(rows: Seq<Vec<String>>, k: int)
    requires
        0 <= k < rows.len(),
    ensures
        rows[k]@.len() <= max_len(rows),
    decreases rows.len(),
{
    if k < rows.len() - 1 {
        lemma_max_len_bound(rows.drop_last(), k);
    }
}

impl Columns {
    /// Measure from every row the phase may print; `caps` clamps a column
    /// (0 leaves it uncapped).
    pub fn measure(rows: &[Vec<String>], prefix: usize, caps: &[usize], flex: usize) -> (r: Columns)
        ensures
            r@ == (widths_spec(rows@, caps@), prefix as nat, flex as nat),
    {
        let mut n: usize = 0;
        let mut k: usize = 0;
        while k < rows.len()
            invariant
                k <= rows@.len(),
                n == max_len(rows@.take(k as int)),
            decreases rows.len() - k,
        {
            assert(rows@.take(k as int + 1).drop_last() =~= rows@.take(k as int));
            if rows[k].len() > n {
                n = rows[k].len();
            }
            k += 1;
        }
        assert(rows@.take(rows@.len() as int) =~= rows@);
        let mut widths: Vec<usize> = Vec::new();
        let mut i: usize = 0;
        while i < n
            invariant
                i <= n,
                n == max_len(rows@),
                widths@.len() == i,
                forall|j: int| 0 <= j < i ==> widths@[j] as nat == (if j == n - 1 { 0 } else { capped(col_max(rows@, j), caps@, j) }),
            decreases n - i,
        {
            let mut w: usize = 0;
            let mut k: usize = 0;
            while k < rows.len()
                invariant
                    k <= rows@.len(),
                    w as nat == col_max(rows@.take(k as int), i as int),
                decreases rows.len() - k,
            {
                assert(rows@.take(k as int + 1).drop_last() =~= rows@.take(k as int));
                if i < rows[k].len() {
                    let cw = width(rows[k][i].as_str());
                    if cw > w {
                        w = cw;
                    }
                }
                k += 1;
            }
            assert(rows@.take(rows@.len() as int) =~= rows@);
            if i < caps.len() && caps[i] > 0 && caps[i] < w {
                w = caps[i];
            }
            if i == n - 1 {
                w = 0;
            }
            widths.push(w);
            i += 1;
        }
        proof {
            assert(widths@.map_values(|w: usize| w as nat) =~= widths_spec(rows@, caps@));
        }
        Columns { widths, prefix, flex }
    }

    /// The widths as measured.
    pub fn widths(&self) -> (r: &Vec<usize>)
        ensures
            r@.map_values(|w: usize| w as nat) == self@.0,
    {
        &self.widths
    }
}

/// Each cell elided to its column's width where that width is set.
pub open spec fn capped_cells(widths: Seq<nat>, cells: Seq<Seq<char>>) -> Seq<Seq<char>> {
    Seq::new(cells.len(), |i: int| if i < widths.len() && widths[i] > 0 { elide_spec(cells[i], widths[i]) } else { cells[i] })
}

/// Columns taken by every cell but the flex one (each at least its column's
/// width), with their gaps, after the prefix.
pub open spec fn fixed_width(widths: Seq<nat>, prefix: nat, flex: int, cells: Seq<Seq<char>>) -> int
    decreases cells.len(),
{
    if cells.len() == 0 {
        prefix as int
    } else {
        let i = cells.len() - 1;
        let w: int = if i == flex {
            0
        } else {
            let dw = display_width(cells[i]) as int;
            let cw: int = if i < widths.len() { widths[i] as int } else { 0 };
            if dw > cw { dw } else { cw }
        };
        fixed_width(widths, prefix, flex, cells.drop_last()) + w + GAP as int
    }
}

/// The cells as a row prints them: elided to their columns, and the flex
/// column squeezed (to what is left, at least `FLEX_MIN`) when a terminal of
/// `cols` columns would otherwise wrap. Without a terminal nothing is
/// squeezed.
pub open spec fn fitted_spec(widths: Seq<nat>, prefix: nat, flex: nat, cells: Seq<Seq<char>>, cols: Option<usize>) -> Seq<Seq<char>> {
    let c = capped_cells(widths, cells);
    match cols {
        Some(tc) => if flex < c.len() {
            let fixed = fixed_width(widths, prefix, flex as int, c);
            if fixed + display_width(c[flex as int]) > tc {
                let left: int = if tc >= fixed { tc - fixed } else { 0 };
                let room: nat = if left > FLEX_MIN { left as nat } else { FLEX_MIN as nat };
                c.update(flex as int, elide_spec(c[flex as int], room))
            } else {
                c
            }
        } else {
            c
        },
        None => c,
    }
}

/// The padding after each fitted cell: none after the last, otherwise what
/// its column has left plus the gap.
pub open spec fn pads_spec(widths: Seq<nat>, fitted: Seq<Seq<char>>) -> Seq<int> {
    Seq::new(fitted.len(), |i: int| if i == fitted.len() - 1 {
        0
    } else {
        (if widths[i] > display_width(fitted[i]) { widths[i] - display_width(fitted[i]) } else { 0 }) + GAP as int
    })
}

/// What a row may be asked to print: no more cells than columns plus one,
/// and no width arithmetic past `usize`.
pub open spec fn row_ok(widths: Seq<nat>, prefix: nat, flex: nat, cells: Seq<Seq<char>>, cols: Option<usize>) -> bool {
    &&& cells.len() <= widths.len() + 1
    &&& forall|i: int| 0 <= i < widths.len() ==> widths[i] + GAP <= usize::MAX
    &&& (cols is Some && flex < cells.len()) ==> fixed_width(widths, prefix, flex as int, capped_cells(widths, cells))
        + display_width(capped_cells(widths, cells)[flex as int]) <= usize::MAX
}

pub open spec fn cell_views(cells: Seq<&str>) -> Seq<Seq<char>> {
    cells.map_values(|c: &str| c@)
}

pub open spec fn part_views(ps: Seq<(String, usize)>) -> Seq<(Seq<char>, int)> {
    ps.map_values(|p: (String, usize)| (p.0@, p.1 as int))
}

proof fn lemma_fixed_step(widths: Seq<nat>, prefix: nat, flex: int, cells: Seq<Seq<char>>, k: int)
    requires
        0 <= k < cells.len(),
    ensures
        fixed_width(widths, prefix, flex, cells.take(k + 1)) == fixed_width(widths, prefix, flex, cells.take(k)) + (if k == flex {
            0
        } else {
            let dw = display_width(cells[k]) as int;
            let cw: int = if k < widths.len() { widths[k] as int } else { 0 };
            if dw > cw { dw } else { cw }
        }) + GAP as int,
{
    let t = cells.take(k + 1);
    assert(t.drop_last() =~= cells.take(k));
    assert(t[k] == cells[k]);
}

proof fn lemma_fixed_mono(widths: Seq<nat>, prefix: nat, flex: int, cells: Seq<Seq<char>>, k: int)
    requires
        0 <= k <= cells.len(),
    ensures
        fixed_width(widths, prefix, flex, cells.take(k)) <= fixed_width(widths, prefix, flex, cells),
        fixed_width(widths, prefix, flex, cells.take(k)) >= prefix,
    decreases cells.len() - k,
{
    if k < cells.len() {
        lemma_fixed_step(widths, prefix, flex, cells, k);
        lemma_fixed_mono(widths, prefix, flex, cells, k + 1);
    } else {
        assert(cells.take(k) =~= cells);
    }
    lemma_fixed_base(widths, prefix, flex, cells.take(k));
}

proof fn lemma_fixed_base(widths: Seq<nat>, prefix: nat, flex: int, cells: Seq<Seq<char>>)
    ensures
        fixed_width(widths, prefix, flex, cells) >= prefix,
    decreases cells.len(),
{
    if cells.len() > 0 {
        lemma_fixed_base(widths, prefix, flex, cells.drop_last());
    }
}

impl Columns {
    /// Cells elided to their caps, and the flex column squeezed where the
    /// row would otherwise wrap a terminal of `cols` columns.
    fn fitted(&self, cells: &[&str], cols: Option<usize>) -> (r: Vec<String>)
        requires
            row_ok(self@.0, self@.1, self@.2, cell_views(cells@), cols),
        ensures
            r@.map_values(|s: String| s@) == fitted_spec(self@.0, self@.1, self@.2, cell_views(cells@), cols),
    {
        let ghost ws = self@.0;
        let ghost cv = cell_views(cells@);
        let ghost cc = capped_cells(ws, cv);
        let mut out: Vec<String> = Vec::new();
        let mut i: usize = 0;
        while i < cells.len()
            invariant
                i <= cells@.len(),
                ws == self@.0,
                cv == cell_views(cells@),
                cc == capped_cells(ws, cv),
                out@.map_values(|s: String| s@) == cc.take(i as int),
            decreases cells.len() - i,
        {
            let c = if i < self.widths.len() && self.widths[i] > 0 {
                elide(cells[i], self.widths[i])
            } else {
                string_of(chars_of(cells[i]).as_slice())
            };
            let ghost before = out@.map_values(|s: String| s@);
            out.push(c);
            assert(out@.map_values(|s: String| s@) =~= before.push(cc[i as int]));
            assert(cc.take(i as int + 1) =~= cc.take(i as int).push(cc[i as int]));
            i += 1;
        }
        assert(cc.take(cells@.len() as int) =~= cc);
        match cols {
            None => out,
            Some(tc) => {
                if self.flex >= out.len() {
                    return out;
                }
                let mut fixed: usize = self.prefix;
                let mut k: usize = 0;
                proof {
                    lemma_fixed_mono(ws, self@.1, self@.2 as int, cc, 0);
                    assert(cc.take(0) =~= Seq::<Seq<char>>::empty());
                }
                while k < out.len()
                    invariant
                        k <= out@.len(),
                        out@.map_values(|s: String| s@) == cc,
                        cc.len() == out@.len(),
                        ws == self@.0,
                        self.widths@.len() == ws.len(),
                        forall|j: int| 0 <= j < ws.len() ==> ws[j] == self.widths@[j] as nat,
                        fixed as int == fixed_width(ws, self@.1, self@.2 as int, cc.take(k as int)),
                        fixed_width(ws, self@.1, self@.2 as int, cc) + display_width(cc[self@.2 as int]) <= usize::MAX,
                        self@.2 < cc.len(),
                    decreases out.len() - k,
                {
                    proof {
                        lemma_fixed_step(ws, self@.1, self@.2 as int, cc, k as int);
                        lemma_fixed_mono(ws, self@.1, self@.2 as int, cc, k as int + 1);
                        assert(out@[k as int]@ == cc[k as int]);
                    }
                    let w = if k == self.flex {
                        0
                    } else {
                        let dw = width(out[k].as_str());
                        let cw = if k < self.widths.len() { self.widths[k] } else { 0 };
                        if dw > cw { dw } else { cw }
                    };
                    fixed = fixed + w + GAP;
                    k += 1;
                }
                assert(cc.take(out@.len() as int) =~= cc);
                let fw = width(out[self.flex].as_str());
                assert(out@[self.flex as int]@ == cc[self.flex as int]);
                if fixed + fw > tc {
                    let left = if tc >= fixed { tc - fixed } else { 0 };
                    let room = if left > FLEX_MIN { left } else { FLEX_MIN };
                    let squeezed = elide(out[self.flex].as_str(), room);
                    let ghost before = out@.map_values(|s: String| s@);
                    out.set(self.flex, squeezed);
                    assert(out@.map_values(|s: String| s@) =~= before.update(self.flex as int, elide_spec(cc[self.flex as int], room as nat)));
                }
                out
            },
        }
    }

    /// One aligned row as `(cell, padding after it)` pairs, for callers
    /// that colour their cells after padding.
    pub fn parts(&self, cells: &[&str], cols: Option<usize>) -> (r: Vec<(String, usize)>)
        requires
            row_ok(self@.0, self@.1, self@.2, cell_views(cells@), cols),
        ensures
            part_views(r@).map_values(|p: (Seq<char>, int)| p.0) == fitted_spec(self@.0, self@.1, self@.2, cell_views(cells@), cols),
            part_views(r@).map_values(|p: (Seq<char>, int)| p.1) == pads_spec(self@.0, fitted_spec(self@.0, self@.1, self@.2, cell_views(cells@), cols)),
    {
        let fitted = self.fitted(cells, cols);
        let ghost fv = fitted@.map_values(|s: String| s@);
        let ghost ws = self@.0;
        let n = fitted.len();
        let mut out: Vec<(String, usize)> = Vec::new();
        let mut i: usize = 0;
        while i < n
            invariant
                i <= n,
                n == fitted@.len(),
                fv == fitted@.map_values(|s: String| s@),
                ws == self@.0,
                fv.len() <= ws.len() + 1,
                self.widths@.len() == ws.len(),
                forall|j: int| 0 <= j < ws.len() ==> ws[j] == self.widths@[j] as nat,
                forall|j: int| 0 <= j < ws.len() ==> ws[j] + GAP <= usize::MAX,
                part_views(out@).map_values(|p: (Seq<char>, int)| p.0) == fv.take(i as int),
                part_views(out@).map_values(|p: (Seq<char>, int)| p.1) == pads_spec(ws, fv).take(i as int),
            decreases n - i,
        {
            let pad = if i == n - 1 {
                0
            } else {
                let dw = width(fitted[i].as_str());
                assert(ws[i as int] == self.widths@[i as int] as nat);
                let w = self.widths[i];
                (if w > dw { w - dw } else { 0 }) + GAP
            };
            let c = string_of(chars_of(fitted[i].as_str()).as_slice());
            let ghost b0 = part_views(out@).map_values(|p: (Seq<char>, int)| p.0);
            let ghost b1 = part_views(out@).map_values(|p: (Seq<char>, int)| p.1);
            out.push((c, pad));
            proof {
                assert(part_views(out@).map_values(|p: (Seq<char>, int)| p.0) =~= b0.push(fv[i as int]));
                assert(part_views(out@).map_values(|p: (Seq<char>, int)| p.1) =~= b1.push(pads_spec(ws, fv)[i as int]));
                assert(fv.take(i as int + 1) =~= fv.take(i as int).push(fv[i as int]));
                assert(pads_spec(ws, fv).take(i as int + 1) =~= pads_spec(ws, fv).take(i as int).push(pads_spec(ws, fv)[i as int]));
            }
            i += 1;
        }
        assert(fv.take(n as int) =~= fv);
        assert(pads_spec(ws, fv).take(n as int) =~= pads_spec(ws, fv));
        out
    }
}

/// `n` spaces.
pub open spec fn spaces(n: nat) -> Seq<char> {
    Seq::new(n, |i: int| ' ')
}

/// Each cell followed by its padding.
pub open spec fn row_text(cells: Seq<Seq<char>>, pads: Seq<int>) -> Seq<char>
    decreases cells.len(),
{
    if cells.len() == 0 {
        Seq::empty()
    } else {
        row_text(cells.drop_last(), pads) + cells.last() + spaces(pads[cells.len() - 1] as nat)
    }
}

impl Columns {
    /// One aligned row: each fitted cell padded to its column.
    pub fn row(&self, cells: &[&str], cols: Option<usize>) -> (r: String)
        requires
            row_ok(self@.0, self@.1, self@.2, cell_views(cells@), cols),
        ensures
            r@ == row_text(fitted_spec(self@.0, self@.1, self@.2, cell_views(cells@), cols),
                pads_spec(self@.0, fitted_spec(self@.0, self@.1, self@.2, cell_views(cells@), cols))),
    {
        let parts = self.parts(cells, cols);
        let ghost cs = part_views(parts@).map_values(|p: (Seq<char>, int)| p.0);
        let ghost ps = part_views(parts@).map_values(|p: (Seq<char>, int)| p.1);
        let mut out = String::new();
        let mut i: usize = 0;
        while i < parts.len()
            invariant
                i <= parts@.len(),
                cs == part_views(parts@).map_values(|p: (Seq<char>, int)| p.0),
                ps == part_views(parts@).map_values(|p: (Seq<char>, int)| p.1),
                out@ == row_text(cs.take(i as int), ps),
            decreases parts.len() - i,
        {
            push_str(&mut out, parts[i].0.as_str());
            let ghost mid = out@;
            let pad = parts[i].1;
            let mut k: usize = 0;
            while k < pad
                invariant
                    k <= pad,
                    out@ == mid + spaces(k as nat),
                decreases pad - k,
            {
                push_chars(&mut out, &[' ']);
                k += 1;
                assert(out@ =~= mid + spaces(k as nat));
            }
            proof {
                let t = cs.take(i as int + 1);
                assert(t.drop_last() =~= cs.take(i as int));
                assert(t.last() == parts@[i as int].0@);
                assert(ps[i as int] == pad as int);
            }
            i += 1;
        }
        assert(cs.take(parts@.len() as int) =~= cs);
        out
    }
}

} // verus!
