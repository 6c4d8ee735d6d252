//! Package managers' observations turned into drift: what each tool's
//! listing means, which declared things are absent, which present things are
//! undeclared, and how a converge's own output is read. The tools themselves
//! are run by the caller; everything here works on what they printed.
use vstd::prelude::*;
use crate::lists::{distinct_keys, has_string, map_put, sort_strings, sorted_le, sorted_unique};
use crate::manifest::{
    gated, gated_spec, opt_str, pairs_map, push_new, push_new_exec, str_views, DconfSnapshot, GnomeExtension, Ignore,
    Machine,
};
use crate::packages::{after_last, after_last_exec, all_managers, lowercase, to_lowercase, Installed, Manager, Pkg};
use crate::dconf::strip_trail_exec;
use crate::text::{
    after, before, boundary_at, strip_trail, chars_of, contains, find_char, find_sub, find_ws, first_sub, first_ws, has_char, has_ws,
    is_first, is_first_ws, lines, lines_of, push_chars, push_str, same, slice, sorted_strs, split_char, split_exec,
    starts_with, string_of, trim, trim_start, trimmed, trimmed_start, views,
};

verus! {

// ---------------------------------------------------------------------------
// Splitting

/// `split_once(char::is_whitespace)`: the text before the first whitespace
/// char and the text after it.
pub open spec fn split_ws(s: Seq<char>) -> Option<(Seq<char>, Seq<char>)> {
    if has_ws(s) {
        Some((s.take(first_ws(s)), s.skip(first_ws(s) + 1)))
    } else {
        None
    }
}

fn split_ws_exec(v: &[char]) -> (r: Option<(Vec<char>, Vec<char>)>)
    ensures
        match r {
            Some((a, b)) => split_ws(v@) == Some((a@, b@)),
            None => split_ws(v@) is None,
        },
{
    match find_ws(v) {
        Some(i) => {
            let n = v.len();
            assert(i < n);
            let a = slice(v, 0, i);
            let b = slice(v, i + 1, n);
            assert(a@ =~= v@.take(i as int));
            assert(b@ =~= v@.skip(i as int + 1));
            Some((a, b))
        },
        None => None,
    }
}

/// `v` with prefix `p` removed, if it has it.
pub open spec fn strip_prefix(v: Seq<char>, p: Seq<char>) -> Option<Seq<char>> {
    if starts_with(v, p) {
        Some(v.skip(p.len() as int))
    } else {
        None
    }
}

fn strip_prefix_exec(v: &[char], p: &str) -> (r: Option<Vec<char>>)
    ensures
        match r {
            Some(x) => strip_prefix(v@, p@) == Some(x@),
            None => strip_prefix(v@, p@) is None,
        },
{
    let pc = chars_of(p);
    if pc.len() > v.len() {
        return None;
    }
    let head = slice(v, 0, pc.len());
    if same(head.as_slice(), pc.as_slice()) {
        let n = v.len();
        let rest = slice(v, pc.len(), n);
        assert(rest@ =~= v@.skip(p@.len() as int));
        Some(rest)
    } else {
        None
    }
}

pub open spec fn opt_pair(r: Option<(String, String)>) -> Option<(Seq<char>, Seq<char>)> {
    match r {
        Some((a, b)) => Some((a@, b@)),
        None => None,
    }
}

// ---------------------------------------------------------------------------
// Capabilities

/// The categories a bundle's declaration can be traced to.
#[derive(Debug, Clone, Copy, PartialEq, Eq, Structural)]
pub enum DeclKind {
    GnomeExtension,
    RpmOstree,
    FlatpakRemote,
}

/// What this host can do about GNOME extensions.
#[derive(Debug, Clone, Copy, PartialEq, Eq, Structural)]
pub struct GextCaps {
    /// Can enumerate what is installed (the lister is present).
    pub observe: bool,
    /// Can install and uninstall (the installer is present).
    pub converge: bool,
}

/// The two abilities come from two different tools: the lister that ships
/// with the shell, and the separate installer.
pub fn gext_caps(have_lister: bool, have_installer: bool) -> (r: GextCaps)
    ensures
        r.observe == have_lister,
        r.converge == have_installer,
{
    GextCaps { observe: have_lister, converge: have_installer }
}

/// What this host can do about rpm-ostree layering.
#[derive(Debug, Clone, Copy, PartialEq, Eq, Structural)]
pub struct RpmOstreeCaps {
    /// Can enumerate what is layered and what is staged.
    pub observe: bool,
    /// Can layer and unlayer.
    pub converge: bool,
}

/// Both abilities come from the one tool: an atomic host has both, any other
/// host neither.
pub fn rpm_ostree_caps(atomic: bool) -> (r: RpmOstreeCaps)
    ensures
        r.observe == atomic,
        r.converge == atomic,
{
    RpmOstreeCaps { observe: atomic, converge: atomic }
}

// ---------------------------------------------------------------------------
// Flatpak remotes

/// A declared remote `"<name> <url>"`: the name and the url, both trimmed and
/// both non-empty.
pub open spec fn parse_remote_spec(t: Seq<char>) -> Option<(Seq<char>, Seq<char>)> {
    match split_ws(t) {
        Some((n, u)) => if trim(n).len() > 0 && trim(u).len() > 0 {
            Some((trim(n), trim(u)))
        } else {
            None
        },
        None => None,
    }
}

/// A declared remote: `"<name> <url>"`.
pub fn parse_remote(token: &str) -> (r: Option<(String, String)>)
    ensures
        opt_pair(r) == parse_remote_spec(token@),
{
    let v = chars_of(token);
    match split_ws_exec(v.as_slice()) {
        Some((n, u)) => {
            let n2 = trimmed(n.as_slice());
            let u2 = trimmed(u.as_slice());
            if n2.len() > 0 && u2.len() > 0 {
                Some((string_of(n2.as_slice()), string_of(u2.as_slice())))
            } else {
                None
            }
        },
        None => None,
    }
}

// ---------------------------------------------------------------------------
// Mac App Store rows

/// `i` is where `p` occurs last in `s`.
pub open spec fn is_last_sub(s: Seq<char>, p: Seq<char>, i: int) -> bool {
    &&& 0 <= i && i + p.len() <= s.len()
    &&& s.subrange(i, i + p.len()) == p
    &&& forall|j: int| i < j && j + p.len() <= s.len() ==> #[trigger] s.subrange(j, j + p.len()) != p
}

/// A name with a trailing ` (version)` dropped: cut at the last ` (` when the
/// name ends with `)`.
pub open spec fn strip_version(name: Seq<char>) -> Seq<char> {
    if name.len() > 0 && name.last() == ')' && exists|i: int| is_last_sub(name, seq![' ', '('], i) {
        trim(name.take(choose|i: int| is_last_sub(name, seq![' ', '('], i)))
    } else {
        name
    }
}

/// A `mas list` row: its id (the first word) and its app name, without a
/// trailing ` (version)`; nothing when either is empty.
pub open spec fn parse_mas_spec(line: Seq<char>) -> Option<(Seq<char>, Seq<char>)> {
    match split_ws(trim(line)) {
        Some((id, rest)) => {
            let name = strip_version(trim(rest));
            if id.len() == 0 || name.len() == 0 {
                None
            } else {
                Some((id, name))
            }
        },
        None => None,
    }
}

fn last_paren(v: &[char]) -> (r: Option<usize>)
    ensures
        match r {
            Some(i) => is_last_sub(v@, seq![' ', '('], i as int),
            None => !exists|i: int| is_last_sub(v@, seq![' ', '('], i),
        },
{
    let n = v.len();
    if n < 2 {
        return None;
    }
    let mut i: usize = n - 1;
    while i > 0
        invariant
            0 <= i < n,
            n == v@.len(),
            forall|j: int| i <= j && j + 2 <= n ==> #[trigger] v@.subrange(j, j + 2) != seq![' ', '('],
        decreases i,
    {
        let j = i - 1;
        if v[j] == ' ' && v[j + 1] == '(' {
            assert(v@.subrange(j as int, j as int + 2) =~= seq![' ', '(']);
            return Some(j);
        }
        assert(v@.subrange(j as int, j as int + 2)[0] == v@[j as int]);
        assert(v@.subrange(j as int, j as int + 2)[1] == v@[j as int + 1]);
        i = j;
    }
    proof {
        if exists|k: int| is_last_sub(v@, seq![' ', '('], k) {
            let k = choose|k: int| is_last_sub(v@, seq![' ', '('], k);
            assert(v@.subrange(k, k + 2) == seq![' ', '(']);
        }
    }
    None
}

proof fn lemma_last_sub_unique(s: Seq<char>, p: Seq<char>, i: int)
    requires
        is_last_sub(s, p, i),
    ensures
        (choose|k: int| is_last_sub(s, p, k)) == i,
{
    let k = choose|k: int| is_last_sub(s, p, k);
    assert(is_last_sub(s, p, k));
}

/// A `mas list` row (`"497799835  Xcode (14.0)"`) as `(id, name)`.
pub fn parse_mas_line(line: &str) -> (r: Option<(String, String)>)
    ensures
        opt_pair(r) == parse_mas_spec(line@),
{
    let t = trimmed(chars_of(line).as_slice());
    match split_ws_exec(t.as_slice()) {
        Some((id, rest)) => {
            let name0 = trimmed(rest.as_slice());
            let mut name = name0;
            let nl = name.len();
            if nl > 0 && name[nl - 1] == ')' {
                match last_paren(name.as_slice()) {
                    Some(i) => {
                        proof {
                            lemma_last_sub_unique(name@, seq![' ', '('], i as int);
                        }
                        let head = slice(name.as_slice(), 0, i);
                        assert(head@ =~= name@.take(i as int));
                        name = trimmed(head.as_slice());
                    },
                    None => {},
                }
            }
            if id.len() == 0 || name.len() == 0 {
                None
            } else {
                Some((string_of(id.as_slice()), string_of(name.as_slice())))
            }
        },
        None => None,
    }
}

/// The id → name map a `mas list` listing gives, a later row for an id
/// replacing an earlier one.
pub open spec fn mas_map(ls: Seq<Seq<char>>) -> Map<Seq<char>, Seq<char>>
    decreases ls.len(),
{
    if ls.len() == 0 {
        Map::empty()
    } else {
        match parse_mas_spec(ls.last()) {
            Some((id, name)) => mas_map(ls.drop_last()).insert(id, name),
            None => mas_map(ls.drop_last()),
        }
    }
}

/// Installed Mac App Store id → app name, from the rows of `mas list`.
pub fn mas_names(rows: &[String]) -> (r: Vec<(String, String)>)
    ensures
        distinct_keys(r@),
        pairs_map(r@) == mas_map(str_views(rows@)),
{
    let mut out: Vec<(String, String)> = Vec::new();
    let mut i: usize = 0;
    while i < rows.len()
        invariant
            i <= rows@.len(),
            distinct_keys(out@),
            pairs_map(out@) == mas_map(str_views(rows@).take(i as int)),
        decreases rows.len() - i,
    {
        let ghost t = str_views(rows@).take(i as int + 1);
        assert(t.drop_last() =~= str_views(rows@).take(i as int));
        assert(t.last() == rows@[i as int]@);
        match parse_mas_line(rows[i].as_str()) {
            Some((id, name)) => {
                map_put(&mut out, id, name);
            },
            None => {},
        }
        i += 1;
    }
    assert(str_views(rows@).take(rows@.len() as int) =~= str_views(rows@));
    out
}

// ---------------------------------------------------------------------------
// Reading a converge's output

/// The first field of `split(c)`: the text before the first `c`, or all of
/// it.
pub open spec fn first_field(s: Seq<char>, c: char) -> Seq<char> {
    if has_char(s, c) {
        before(s, c)
    } else {
        s
    }
}

pub(crate) fn first_field_exec(v: &[char], c: char) -> (r: Vec<char>)
    ensures
        r@ == first_field(v@, c),
{
    match find_char(v, c) {
        Some(i) => slice(v, 0, i),
        None => {
            let r = slice(v, 0, v.len());
            assert(r@ =~= v@);
            r
        },
    }
}

/// The label for what an ohai line's remainder (after `==> `) names.
pub open spec fn label_of_rest(rest: Seq<char>) -> Option<Seq<char>> {
    if contains(rest, " dependency: "@) {
        Some(trim(rest.skip(first_sub(rest, " dependency: "@) + " dependency: "@.len())))
    } else if starts_with(rest, "Installing dependencies for "@) || starts_with(rest, "Fetching downloads for"@) {
        None
    } else if starts_with(rest, "Installing Cask "@) {
        Some(trim(rest.skip("Installing Cask "@.len() as int)))
    } else if starts_with(rest, "Installing "@) {
        Some(trim(rest.skip("Installing "@.len() as int)))
    } else if starts_with(rest, "Fetching "@) {
        Some(trim(rest.skip("Fetching "@.len() as int)))
    } else if starts_with(rest, "Pouring "@) {
        let x = rest.skip("Pouring "@.len() as int);
        Some(trim(if contains(x, "--"@) { x.take(first_sub(x, "--"@)) } else { x }))
    } else if starts_with(rest, "Running installer for "@) {
        Some(trim(first_field(rest.skip("Running installer for "@.len() as int), ';')))
    } else {
        None
    }
}

/// The package a line of Homebrew output is working on: an ohai line
/// (`==> …`) that names a single package; nothing for a list or any other
/// line.
pub open spec fn progress_label_spec(line: Seq<char>) -> Option<Seq<char>> {
    match strip_prefix(trim(line), "==> "@) {
        Some(rest) => label_of_rest(rest),
        None => None,
    }
}

fn opt_string(r: Option<Vec<char>>) -> (o: Option<String>)
    ensures
        match o {
            Some(x) => r matches Some(y) && x@ == y@,
            None => r is None,
        },
{
    match r {
        Some(v) => Some(string_of(v.as_slice())),
        None => None,
    }
}

fn label_of_rest_exec(rest: &[char]) -> (r: Option<Vec<char>>)
    ensures
        match r {
            Some(x) => label_of_rest(rest@) == Some(x@),
            None => label_of_rest(rest@) is None,
        },
{
    let dep = chars_of(" dependency: ");
    match find_sub(rest, dep.as_slice()) {
        Some(i) => {
            let n = rest.len();
            let tail = slice(rest, i + dep.len(), n);
            assert(tail@ =~= rest@.skip(first_sub(rest@, " dependency: "@) + " dependency: "@.len()));
            return Some(trimmed(tail.as_slice()));
        },
        None => {},
    }
    if strip_prefix_exec(rest, "Installing dependencies for ").is_some() || strip_prefix_exec(
        rest,
        "Fetching downloads for",
    ).is_some() {
        return None;
    }
    match strip_prefix_exec(rest, "Installing Cask ") {
        Some(x) => {
            return Some(trimmed(x.as_slice()));
        },
        None => {},
    }
    match strip_prefix_exec(rest, "Installing ") {
        Some(x) => {
            return Some(trimmed(x.as_slice()));
        },
        None => {},
    }
    match strip_prefix_exec(rest, "Fetching ") {
        Some(x) => {
            return Some(trimmed(x.as_slice()));
        },
        None => {},
    }
    match strip_prefix_exec(rest, "Pouring ") {
        Some(x) => {
            let dd = chars_of("--");
            let name = match find_sub(x.as_slice(), dd.as_slice()) {
                Some(i) => {
                    let h = slice(x.as_slice(), 0, i);
                    assert(h@ =~= x@.take(i as int));
                    h
                },
                None => x,
            };
            return Some(trimmed(name.as_slice()));
        },
        None => {},
    }
    match strip_prefix_exec(rest, "Running installer for ") {
        Some(x) => {
            let f = first_field_exec(x.as_slice(), ';');
            return Some(trimmed(f.as_slice()));
        },
        None => {},
    }
    None
}

/// The label a progress spinner shows for a line of Homebrew output.
pub fn brew_progress_label(line: &str) -> (r: Option<String>)
    ensures
        match r {
            Some(x) => progress_label_spec(line@) == Some(x@),
            None => progress_label_spec(line@) is None,
        },
{
    let t = trimmed(chars_of(line).as_slice());
    match strip_prefix_exec(t.as_slice(), "==> ") {
        Some(rest) => opt_string(label_of_rest_exec(rest.as_slice())),
        None => None,
    }
}

/// `c` is the ASCII lowercase letter `lower`, in either case, or equals it.
pub open spec fn ci_eq(c: char, lower: char) -> bool {
    c == lower || ('a' <= lower && lower <= 'z' && (c as u32) + 32 == lower as u32)
}

/// `s` starts with `p`, ASCII case ignored (`p` lowercase).
pub open spec fn ci_prefix(s: Seq<char>, p: Seq<char>) -> bool {
    s.len() >= p.len() && forall|i: int| 0 <= i < p.len() ==> #[trigger] ci_eq(s[i], p[i])
}

fn ci_prefix_exec(s: &[char], p: &str) -> (r: bool)
    ensures
        r == ci_prefix(s@, p@),
{
    let pc = chars_of(p);
    if s.len() < pc.len() {
        return false;
    }
    let mut i: usize = 0;
    while i < pc.len()
        invariant
            i <= pc@.len(),
            pc@ == p@,
            s@.len() >= p@.len(),
            forall|j: int| 0 <= j < i ==> #[trigger] ci_eq(s@[j], pc@[j]),
        decreases pc.len() - i,
    {
        let c = s[i];
        let l = pc[i];
        if !(c == l || ('a' <= l && l <= 'z' && (c as u32) == (l as u32) - 32)) {
            assert(!ci_eq(s@[i as int], p@[i as int]));
            return false;
        }
        i += 1;
    }
    true
}

/// A line that starts an advisory: after leading whitespace, `warning:` or
/// `error:` in any ASCII case.
pub open spec fn noteworthy_spec(line: Seq<char>) -> bool {
    ci_prefix(trim_start(line), "warning:"@) || ci_prefix(trim_start(line), "error:"@)
}

/// Whether a captured line starts something worth surfacing even on a
/// successful run. The head it examines is the first eight bytes of the
/// trimmed line, which must end on a character boundary.
pub fn is_noteworthy(line: &str) -> (r: bool)
    requires
        boundary_at(trim_start(line@), 8),
    ensures
        r == noteworthy_spec(line@),
{
    let t = trimmed_start(chars_of(line).as_slice());
    ci_prefix_exec(t.as_slice(), "warning:") || ci_prefix_exec(t.as_slice(), "error:")
}

/// The advisory lines of a log and whether the last line left a block open:
/// an advisory line opens a block, a blank line or a progress (`==> `) line
/// closes it, and every line inside a block is kept.
pub open spec fn nw_fold(ls: Seq<Seq<char>>) -> (bool, Seq<Seq<char>>)
    decreases ls.len(),
{
    if ls.len() == 0 {
        (false, Seq::empty())
    } else {
        let (open, kept) = nw_fold(ls.drop_last());
        let l = ls.last();
        let now = if noteworthy_spec(l) {
            true
        } else if trim(l).len() == 0 || starts_with(trim_start(l), "==> "@) {
            false
        } else {
            open
        };
        (now, if now { kept.push(l) } else { kept })
    }
}

/// Every line may be examined by `is_noteworthy`.
pub open spec fn lines_examinable(log: Seq<char>) -> bool {
    forall|i: int| 0 <= i < lines_of(log).len() ==> boundary_at(trim_start(#[trigger] lines_of(log)[i]), 8)
}

/// The lines to surface from a successful run: every advisory line plus its
/// body.
pub fn noteworthy_lines(log: &str) -> (r: Vec<String>)
    requires
        lines_examinable(log@),
    ensures
        str_views(r@) == nw_fold(lines_of(log@)).1,
{
    let ls = lines(chars_of(log).as_slice());
    let ghost lv = lines_of(log@);
    let mut out: Vec<String> = Vec::new();
    let mut in_block = false;
    let mut i: usize = 0;
    while i < ls.len()
        invariant
            i <= ls@.len(),
            views(ls@) == lv,
            lv == lines_of(log@),
            lines_examinable(log@),
            nw_fold(lv.take(i as int)) == (in_block, str_views(out@)),
        decreases ls.len() - i,
    {
        let l = string_of(ls[i].as_slice());
        let ghost t = lv.take(i as int + 1);
        assert(t.drop_last() =~= lv.take(i as int));
        assert(t.last() == lv[i as int]);
        assert(lv[i as int] == ls@[i as int]@);
        assert(boundary_at(trim_start(lv[i as int]), 8));
        let tr = trimmed(ls[i].as_slice());
        let ts = trimmed_start(ls[i].as_slice());
        if is_noteworthy(l.as_str()) {
            in_block = true;
        } else if tr.len() == 0 || strip_prefix_exec(ts.as_slice(), "==> ").is_some() {
            in_block = false;
        }
        if in_block {
            let ghost before = str_views(out@);
            out.push(l);
            assert(str_views(out@) =~= before.push(lv[i as int]));
        }
        i += 1;
    }
    assert(lv.take(lv.len() as int) =~= lv);
    out
}


// ---------------------------------------------------------------------------
// Declared against installed

/// The items of `v` in neither `a` nor `b`, in order.
pub open spec fn without(v: Seq<Seq<char>>, a: Seq<Seq<char>>, b: Seq<Seq<char>>) -> Seq<Seq<char>>
    decreases v.len(),
{
    if v.len() == 0 {
        Seq::empty()
    } else {
        let w = without(v.drop_last(), a, b);
        if a.contains(v.last()) || b.contains(v.last()) {
            w
        } else {
            w.push(v.last())
        }
    }
}

/// The items of `v` in neither `a` nor `b`.
pub fn filter_out(v: &[String], a: &[String], b: &[String]) -> (r: Vec<String>)
    ensures
        str_views(r@) == without(str_views(v@), str_views(a@), str_views(b@)),
{
    let mut out: Vec<String> = Vec::new();
    let mut i: usize = 0;
    while i < v.len()
        invariant
            i <= v@.len(),
            str_views(out@) == without(str_views(v@).take(i as int), str_views(a@), str_views(b@)),
        decreases v.len() - i,
    {
        let ghost t = str_views(v@).take(i as int + 1);
        assert(t.drop_last() =~= str_views(v@).take(i as int));
        assert(t.last() == v@[i as int]@);
        if !has_string(a, v[i].as_str()) && !has_string(b, v[i].as_str()) {
            let ghost before = str_views(out@);
            out.push(v[i].clone());
            assert(str_views(out@) =~= before.push(v@[i as int]@));
        }
        i += 1;
    }
    assert(str_views(v@).take(v@.len() as int) =~= str_views(v@));
    out
}

proof fn lemma_without_contains(v: Seq<Seq<char>>, a: Seq<Seq<char>>, b: Seq<Seq<char>>, y: Seq<char>)
    ensures
        without(v, a, b).contains(y) <==> (v.contains(y) && !a.contains(y) && !b.contains(y)),
    decreases v.len(),
{
    if v.len() > 0 {
        lemma_without_contains(v.drop_last(), a, b, y);
        let w = without(v.drop_last(), a, b);
        if v.contains(y) && !v.drop_last().contains(y) {
            let k = choose|k: int| 0 <= k < v.len() && v[k] == y;
            if k < v.len() - 1 {
                assert(v.drop_last()[k] == y);
            }
        }
        if v.drop_last().contains(y) {
            let k = choose|k: int| 0 <= k < v.drop_last().len() && v.drop_last()[k] == y;
            assert(v[k] == y);
        }
        if !(a.contains(v.last()) || b.contains(v.last())) {
            if w.push(v.last()).contains(y) && !w.contains(y) {
                let k = choose|k: int| 0 <= k < w.push(v.last()).len() && w.push(v.last())[k] == y;
                assert(y == v.last());
            }
            if w.contains(y) {
                let k = choose|k: int| 0 <= k < w.len() && w[k] == y;
                assert(w.push(v.last())[k] == y);
            }
            if y == v.last() {
                assert(w.push(v.last())[w.len() as int] == y);
            }
        }
        assert(v[v.len() - 1] == v.last());
    }
}

/// Declared minus installed, sorted, without repeats.
pub fn gext_absent_from(installed: &[String], declared: &[String]) -> (r: Vec<String>)
    ensures
        sorted_strs(str_views(r@)),
        forall|y: Seq<char>| #[trigger] str_views(r@).contains(y) <==> (str_views(declared@).contains(y) && !str_views(installed@).contains(y)),
{
    let none: Vec<String> = Vec::new();
    let kept = filter_out(declared, installed, none.as_slice());
    let r = sorted_unique(kept.as_slice());
    proof {
        assert forall|y: Seq<char>| #[trigger] str_views(r@).contains(y) <==> (str_views(declared@).contains(y) && !str_views(installed@).contains(y)) by {
            lemma_without_contains(str_views(declared@), str_views(installed@), str_views(none@), y);
        }
    }
    r
}

/// User-installed minus declared minus ignored, sorted (repeats kept).
pub fn gext_extras_from(installed_user: &[String], effective: &[String], ignore: &[String]) -> (r: Vec<String>)
    ensures
        sorted_le(str_views(r@)),
        str_views(r@).to_multiset() == without(str_views(installed_user@), str_views(effective@), str_views(ignore@)).to_multiset(),
{
    let kept = filter_out(installed_user, effective, ignore);
    sort_strings(kept)
}

/// User-scope extensions no declaration names and `[ignore]` does not list:
/// nothing when the machine declares none, or when the user scope could not
/// be listed.
pub fn gext_extras(effective: &[String], ignore: &Ignore, installed_user: Option<Vec<String>>) -> (r: Vec<String>)
    ensures
        (effective@.len() == 0 || installed_user is None) ==> r@.len() == 0,
        effective@.len() > 0 ==> (installed_user matches Some(u) ==> (sorted_le(str_views(r@))
            && str_views(r@).to_multiset() == without(str_views(u@), str_views(effective@), str_views(ignore.gnome_extensions@)).to_multiset())),
{
    if effective.len() == 0 {
        return Vec::new();
    }
    match installed_user {
        Some(u) => gext_extras_from(u.as_slice(), effective, ignore.gnome_extensions.as_slice()),
        None => Vec::new(),
    }
}

/// Declared extensions not installed: nothing when none are declared or the
/// installed ones could not be listed.
pub fn gext_missing(effective: &[String], installed: Option<Vec<String>>) -> (r: Vec<String>)
    ensures
        (effective@.len() == 0 || installed is None) ==> r@.len() == 0,
        effective@.len() > 0 ==> (installed matches Some(i) ==> (sorted_strs(str_views(r@))
            && forall|y: Seq<char>| #[trigger] str_views(r@).contains(y) <==> (str_views(effective@).contains(y) && !str_views(i@).contains(y)))),
{
    if effective.len() == 0 {
        return Vec::new();
    }
    match installed {
        Some(i) => gext_absent_from(i.as_slice(), effective),
        None => Vec::new(),
    }
}

/// Extensions the machine's own list declares that are not installed: the
/// candidates for dropping from that list. Nothing when it declares none or
/// the installed ones could not be listed.
pub fn gext_machine_absent(machine_own: &[String], installed: Option<Vec<String>>) -> (r: Vec<String>)
    ensures
        (machine_own@.len() == 0 || installed is None) ==> r@.len() == 0,
        machine_own@.len() > 0 ==> (installed matches Some(i) ==> (sorted_strs(str_views(r@))
            && forall|y: Seq<char>| #[trigger] str_views(r@).contains(y) <==> (str_views(machine_own@).contains(y) && !str_views(i@).contains(y)))),
{
    gext_missing(machine_own, installed)
}

/// Packages the machine's own list declares that are not layered: nothing
/// when it declares none or the layered set could not be read.
pub fn rpm_ostree_machine_absent(machine_own: &[String], requested: Option<Vec<String>>) -> (r: Vec<String>)
    ensures
        (machine_own@.len() == 0 || requested is None) ==> r@.len() == 0,
        machine_own@.len() > 0 ==> (requested matches Some(q) ==> (sorted_strs(str_views(r@))
            && forall|y: Seq<char>| #[trigger] str_views(r@).contains(y) <==> (str_views(machine_own@).contains(y) && !str_views(q@).contains(y)))),
{
    if machine_own.len() == 0 {
        return Vec::new();
    }
    match requested {
        Some(q) => gext_absent_from(q.as_slice(), machine_own),
        None => Vec::new(),
    }
}

/// Layered packages nothing declares and `[ignore]` does not list, sorted:
/// nothing when none are declared or the layered set could not be read.
pub fn rpm_ostree_extras(effective: &[String], ignore: &Ignore, requested: Option<Vec<String>>) -> (r: Vec<String>)
    ensures
        (effective@.len() == 0 || requested is None) ==> r@.len() == 0,
        effective@.len() > 0 ==> (requested matches Some(q) ==> (sorted_le(str_views(r@))
            && str_views(r@).to_multiset() == without(str_views(q@), str_views(effective@), str_views(ignore.rpm_ostree@)).to_multiset())),
{
    if effective.len() == 0 {
        return Vec::new();
    }
    match requested {
        Some(q) => gext_extras_from(q.as_slice(), effective, ignore.rpm_ostree.as_slice()),
        None => Vec::new(),
    }
}

// ---------------------------------------------------------------------------
// Remotes against what is configured

pub open spec fn pair_views(v: Seq<(String, String)>) -> Seq<(Seq<char>, Seq<char>)> {
    v.map_values(|p: (String, String)| (p.0@, p.1@))
}

pub open spec fn firsts(v: Seq<(String, String)>) -> Seq<Seq<char>> {
    v.map_values(|p: (String, String)| p.0@)
}

/// A configured remote has this name and, trailing slashes aside, this url.
pub open spec fn remote_present(live: Seq<(Seq<char>, Seq<char>)>, n: Seq<char>, u: Seq<char>) -> bool {
    exists|k: int| 0 <= k < live.len() && #[trigger] live[k].0 == n && strip_trail(live[k].1, '/') == strip_trail(u, '/')
}

/// Each declared remote not configured as declared, as `"<name> <url>"`.
pub open spec fn remotes_missing_spec(eff: Seq<(Seq<char>, Seq<char>)>, live: Seq<(Seq<char>, Seq<char>)>) -> Seq<Seq<char>>
    decreases eff.len(),
{
    if eff.len() == 0 {
        Seq::empty()
    } else {
        let w = remotes_missing_spec(eff.drop_last(), live);
        let (n, u) = eff.last();
        if remote_present(live, n, u) {
            w
        } else {
            w.push(n + seq![' '] + u)
        }
    }
}

fn remote_present_exec(live: &[(String, String)], n: &String, u: &String) -> (r: bool)
    ensures
        r == remote_present(pair_views(live@), n@, u@),
{
    let uc = strip_trail_exec(chars_of(u.as_str()).as_slice(), '/');
    let nc = chars_of(n.as_str());
    let ghost lv = pair_views(live@);
    let mut k: usize = 0;
    while k < live.len()
        invariant
            k <= live@.len(),
            lv == pair_views(live@),
            uc@ == strip_trail(u@, '/'),
            nc@ == n@,
            forall|j: int| 0 <= j < k ==> !(#[trigger] lv[j].0 == n@ && strip_trail(lv[j].1, '/') == strip_trail(u@, '/')),
        decreases live.len() - k,
    {
        let lu = strip_trail_exec(chars_of(live[k].1.as_str()).as_slice(), '/');
        if same(chars_of(live[k].0.as_str()).as_slice(), nc.as_slice()) && same(lu.as_slice(), uc.as_slice()) {
            assert(lv[k as int].0 == n@);
            return true;
        }
        k += 1;
    }
    false
}

/// Declared remotes that are absent, or configured under another url:
/// nothing when none are declared or the configured ones could not be listed.
pub fn remotes_missing(effective: &[(String, String)], live: Option<Vec<(String, String)>>) -> (r: Vec<String>)
    ensures
        (effective@.len() == 0 || live is None) ==> r@.len() == 0,
        effective@.len() > 0 ==> (live matches Some(l) ==> str_views(r@) == remotes_missing_spec(pair_views(effective@), pair_views(l@))),
{
    if effective.len() == 0 {
        return Vec::new();
    }
    let l = match live {
        Some(l) => l,
        None => {
            return Vec::new();
        },
    };
    let ghost ev = pair_views(effective@);
    let ghost lv = pair_views(l@);
    let mut out: Vec<String> = Vec::new();
    let mut i: usize = 0;
    while i < effective.len()
        invariant
            i <= effective@.len(),
            ev == pair_views(effective@),
            lv == pair_views(l@),
            str_views(out@) == remotes_missing_spec(ev.take(i as int), lv),
        decreases effective.len() - i,
    {
        let ghost t = ev.take(i as int + 1);
        assert(t.drop_last() =~= ev.take(i as int));
        assert(t.last() == ev[i as int]);
        let (n, u) = (&effective[i].0, &effective[i].1);
        if !remote_present_exec(l.as_slice(), n, u) {
            let mut line = String::new();
            push_str(&mut line, n.as_str());
            push_str(&mut line, " ");
            push_str(&mut line, u.as_str());
            let ghost before = str_views(out@);
            proof {
                reveal_strlit(" ");
            }
            assert(line@ =~= n@ + seq![' '] + u@);
            out.push(line);
            assert(str_views(out@) =~= before.push(n@ + seq![' '] + u@));
        }
        i += 1;
    }
    assert(ev.take(ev.len() as int) =~= ev);
    out
}

fn names_of(v: &[(String, String)]) -> (r: Vec<String>)
    ensures
        str_views(r@) == firsts(v@),
{
    let mut out: Vec<String> = Vec::new();
    let mut i: usize = 0;
    while i < v.len()
        invariant
            i <= v@.len(),
            str_views(out@) == firsts(v@).take(i as int),
        decreases v.len() - i,
    {
        let x = v[i].0.clone();
        assert(x@ == firsts(v@)[i as int]);
        let ghost before = str_views(out@);
        out.push(x);
        assert(str_views(out@) =~= before.push(x@));
        assert(firsts(v@).take(i as int + 1) =~= firsts(v@).take(i as int).push(x@));
        i += 1;
    }
    assert(firsts(v@).take(v@.len() as int) =~= firsts(v@));
    out
}

/// User-scope remotes no declaration names and `[ignore]` does not list,
/// sorted: nothing when none are declared or the user scope could not be
/// listed.
pub fn remotes_extras(effective: &[(String, String)], ignore: &Ignore, live_user: Option<Vec<(String, String)>>) -> (r: Vec<String>)
    ensures
        (effective@.len() == 0 || live_user is None) ==> r@.len() == 0,
        effective@.len() > 0 ==> (live_user matches Some(l) ==> (sorted_le(str_views(r@))
            && str_views(r@).to_multiset() == without(firsts(l@), firsts(effective@), str_views(ignore.flatpak_remote@)).to_multiset())),
{
    if effective.len() == 0 {
        return Vec::new();
    }
    match live_user {
        Some(l) => {
            let live_names = names_of(l.as_slice());
            let eff_names = names_of(effective);
            gext_extras_from(live_names.as_slice(), eff_names.as_slice(), ignore.flatpak_remote.as_slice())
        },
        None => Vec::new(),
    }
}

// ---------------------------------------------------------------------------
// Versions before and after an upgrade

/// The value a pair list gives a key.
pub open spec fn lookup(ps: Seq<(String, String)>, k: Seq<char>) -> Option<Seq<char>> {
    if pairs_map(ps).dom().contains(k) {
        Some(pairs_map(ps)[k])
    } else {
        None
    }
}

/// How many entries of `after` name a package `before` knew at another
/// version.
pub open spec fn upgraded_count(before: Seq<(String, String)>, after: Seq<(String, String)>) -> nat
    decreases after.len(),
{
    if after.len() == 0 {
        0
    } else {
        upgraded_count(before, after.drop_last()) + match lookup(before, after.last().0@) {
            Some(was) => if was != after.last().1@ { 1nat } else { 0nat },
            None => 0nat,
        }
    }
}

proof fn lemma_upgraded_count_bound(before: Seq<(String, String)>, after: Seq<(String, String)>)
    ensures
        upgraded_count(before, after) <= after.len(),
    decreases after.len(),
{
    if after.len() > 0 {
        lemma_upgraded_count_bound(before, after.drop_last());
    }
}

pub(crate) fn lookup_exec<'a>(ps: &'a [(String, String)], k: &String) -> (r: Option<&'a String>)
    requires
        distinct_keys(ps@),
    ensures
        match r {
            Some(v) => lookup(ps@, k@) == Some(v@),
            None => lookup(ps@, k@) is None,
        },
{
    let kc = chars_of(k.as_str());
    let mut i: usize = 0;
    while i < ps.len()
        invariant
            i <= ps@.len(),
            kc@ == k@,
            distinct_keys(ps@),
            forall|j: int| 0 <= j < i ==> (#[trigger] ps@[j]).0@ != k@,
        decreases ps.len() - i,
    {
        if same(chars_of(ps[i].0.as_str()).as_slice(), kc.as_slice()) {
            proof {
                assert forall|j: int| i < j < ps@.len() implies (#[trigger] ps@[j]).0@ != ps@[i as int].0@ by {
                    assert(ps@[i as int].0@ != ps@[j].0@);
                }
                crate::manifest::lemma_pairs_lookup(ps@, i as int);
            }
            return Some(&ps[i].1);
        }
        i += 1;
    }
    proof {
        crate::manifest::lemma_pairs_absent(ps@, k@);
    }
    None
}

/// How many packages changed version between two snapshots: only names
/// present in both count.
pub fn upgraded_between(before: &[(String, String)], after: &[(String, String)]) -> (r: usize)
    requires
        distinct_keys(before@),
    ensures
        r == upgraded_count(before@, after@),
{
    let mut n: usize = 0;
    let mut i: usize = 0;
    while i < after.len()
        invariant
            i <= after@.len(),
            distinct_keys(before@),
            n == upgraded_count(before@, after@.take(i as int)),
        decreases after.len() - i,
    {
        let ghost t = after@.take(i as int + 1);
        assert(t.drop_last() =~= after@.take(i as int));
        assert(t.last() == after@[i as int]);
        proof {
            lemma_upgraded_count_bound(before@, after@.take(i as int));
        }
        match lookup_exec(before, &after[i].0) {
            Some(was) => {
                if !same(chars_of(was.as_str()).as_slice(), chars_of(after[i].1.as_str()).as_slice()) {
                    n += 1;
                }
            },
            None => {},
        }
        i += 1;
    }
    assert(after@.take(after@.len() as int) =~= after@);
    n
}

/// The version entry a `brew list --versions` row gives: `brew:<name>` and
/// the rest of the row, trimmed.
pub open spec fn brew_version_entry(l: Seq<char>) -> Option<(Seq<char>, Seq<char>)> {
    match split_ws(l) {
        Some((n, v)) => Some(("brew:"@ + n, trim(v))),
        None => None,
    }
}

/// The version entry a flatpak `application<TAB>version` row gives.
pub open spec fn flatpak_version_entry(l: Seq<char>) -> (Seq<char>, Seq<char>) {
    let cols = split_char(l, '\t');
    ("flatpak:"@ + cols[0], trim(if cols.len() > 1 { cols[1] } else { Seq::empty() }))
}

/// The package → version map both listings give, brew's rows first, a later
/// row for a name replacing an earlier one.
pub open spec fn versions_map(brew: Seq<Seq<char>>, flatpak: Seq<Seq<char>>) -> Map<Seq<char>, Seq<char>>
    decreases brew.len() + flatpak.len(),
{
    if flatpak.len() > 0 {
        let (k, v) = flatpak_version_entry(flatpak.last());
        versions_map(brew, flatpak.drop_last()).insert(k, v)
    } else if brew.len() > 0 {
        match brew_version_entry(brew.last()) {
            Some((k, v)) => versions_map(brew.drop_last(), flatpak).insert(k, v),
            None => versions_map(brew.drop_last(), flatpak),
        }
    } else {
        Map::empty()
    }
}

proof fn lemma_split_char_nonempty(s: Seq<char>, c: char)
    ensures
        split_char(s, c).len() >= 1,
    decreases s.len(),
{
    if s.len() > 0 {
        lemma_split_char_nonempty(s.drop_last(), c);
    }
}

/// Package → installed version, from `brew list --versions` rows and from
/// flatpak's `application<TAB>version` rows.
pub fn installed_versions(brew_rows: &[String], flatpak_rows: &[String]) -> (r: Vec<(String, String)>)
    ensures
        distinct_keys(r@),
        pairs_map(r@) == versions_map(str_views(brew_rows@), str_views(flatpak_rows@)),
{
    let ghost bv = str_views(brew_rows@);
    let ghost fv = str_views(flatpak_rows@);
    let mut out: Vec<(String, String)> = Vec::new();
    let mut i: usize = 0;
    while i < brew_rows.len()
        invariant
            i <= brew_rows@.len(),
            bv == str_views(brew_rows@),
            distinct_keys(out@),
            pairs_map(out@) == versions_map(bv.take(i as int), Seq::empty()),
        decreases brew_rows.len() - i,
    {
        let ghost t = bv.take(i as int + 1);
        assert(t.drop_last() =~= bv.take(i as int));
        assert(t.last() == brew_rows@[i as int]@);
        match split_ws_exec(chars_of(brew_rows[i].as_str()).as_slice()) {
            Some((n, v)) => {
                let mut key = String::new();
                push_str(&mut key, "brew:");
                push_chars(&mut key, n.as_slice());
                let val = string_of(trimmed(v.as_slice()).as_slice());
                map_put(&mut out, key, val);
            },
            None => {},
        }
        i += 1;
    }
    assert(bv.take(bv.len() as int) =~= bv);
    assert(fv.take(0) =~= Seq::<Seq<char>>::empty());
    let mut j: usize = 0;
    while j < flatpak_rows.len()
        invariant
            j <= flatpak_rows@.len(),
            bv == str_views(brew_rows@),
            fv == str_views(flatpak_rows@),
            distinct_keys(out@),
            pairs_map(out@) == versions_map(bv, fv.take(j as int)),
        decreases flatpak_rows.len() - j,
    {
        let ghost t = fv.take(j as int + 1);
        assert(t.drop_last() =~= fv.take(j as int));
        assert(t.last() == flatpak_rows@[j as int]@);
        let cols = split_exec(chars_of(flatpak_rows[j].as_str()).as_slice(), '\t');
        proof {
            lemma_split_char_nonempty(flatpak_rows@[j as int]@, '\t');
            assert(cols@[0]@ == views(cols@)[0]);
        }
        let mut key = String::new();
        push_str(&mut key, "flatpak:");
        push_chars(&mut key, cols[0].as_slice());
        let val = if cols.len() > 1 {
            assert(cols@[1]@ == views(cols@)[1]);
            string_of(trimmed(cols[1].as_slice()).as_slice())
        } else {
            let e: Vec<char> = Vec::new();
            assert(trim(e@) =~= e@) by {
                assert(e@.len() == 0);
            }
            String::new()
        };
        map_put(&mut out, key, val);
        j += 1;
    }
    assert(fv.take(fv.len() as int) =~= fv);
    out
}

// ---------------------------------------------------------------------------
// Dependency-aware brew extras

/// A character a formula, cask or tap name may hold.
pub open spec fn is_name_char(c: char) -> bool {
    ('a' <= c && c <= 'z') || ('0' <= c && c <= '9') || c == '.' || c == '_' || c == '/' || c == '-'
}

/// A line that is a bare name: starts with a lowercase letter or digit and
/// holds only name characters.
pub open spec fn is_name_line(l: Seq<char>) -> bool {
    l.len() > 0 && (('a' <= l[0] && l[0] <= 'z') || ('0' <= l[0] && l[0] <= '9')) && forall|i: int|
        0 <= i < l.len() ==> #[trigger] is_name_char(l[i])
}

/// Section state and extras after reading `ls`: section `0` is none, `1` is
/// "Would uninstall" (formulae and casks, cut to their short name), `2` is
/// "Would untap" (taps, kept whole). A line starting with an uppercase letter
/// ends a section.
pub open spec fn cleanup_fold(ls: Seq<Seq<char>>, ign: Seq<Seq<char>>) -> (u8, Seq<(Manager, Seq<char>)>)
    decreases ls.len(),
{
    if ls.len() == 0 {
        (0u8, Seq::empty())
    } else {
        let (sec, out) = cleanup_fold(ls.drop_last(), ign);
        let l = ls.last();
        if starts_with(l, "Would uninstall"@) {
            (1u8, out)
        } else if starts_with(l, "Would untap"@) {
            (2u8, out)
        } else if sec == 0 {
            (0u8, out)
        } else if is_name_line(l) {
            if sec == 2 {
                (2u8, if ign.contains(l) { out } else { out.push((Manager::Tap, l)) })
            } else {
                let name = after_last(l, '/');
                (sec, if ign.contains(name) || ign.contains(l) { out } else { out.push((Manager::Brew, name)) })
            }
        } else if l.len() > 0 && 'A' <= l[0] && l[0] <= 'Z' {
            (0u8, out)
        } else {
            (sec, out)
        }
    }
}

pub open spec fn tagged_views(v: Seq<(Manager, String)>) -> Seq<(Manager, Seq<char>)> {
    v.map_values(|p: (Manager, String)| (p.0, p.1@))
}

fn is_name_line_exec(l: &[char]) -> (r: bool)
    ensures
        r == is_name_line(l@),
{
    if l.len() == 0 {
        return false;
    }
    let c0 = l[0];
    if !(('a' <= c0 && c0 <= 'z') || ('0' <= c0 && c0 <= '9')) {
        return false;
    }
    let mut i: usize = 0;
    while i < l.len()
        invariant
            i <= l@.len(),
            forall|j: int| 0 <= j < i ==> #[trigger] is_name_char(l@[j]),
        decreases l.len() - i,
    {
        let c = l[i];
        if !(('a' <= c && c <= 'z') || ('0' <= c && c <= '9') || c == '.' || c == '_' || c == '/' || c == '-') {
            assert(!is_name_char(l@[i as int]));
            return false;
        }
        i += 1;
    }
    true
}

/// `brew bundle cleanup`'s report as manager-tagged extras: taps from its
/// "Would untap" section kept whole, formulae and casks from its "Would
/// uninstall" section cut to their short name (and tagged brew); anything
/// `ignored` names is left out.
pub fn parse_cleanup_extras(text: &str, ignored: &[String]) -> (r: Vec<(Manager, String)>)
    ensures
        tagged_views(r@) == cleanup_fold(lines_of(text@), str_views(ignored@)).1,
{
    let ls = lines(chars_of(text).as_slice());
    let ghost lv = lines_of(text@);
    let ghost ign = str_views(ignored@);
    let mut sec: u8 = 0;
    let mut out: Vec<(Manager, String)> = Vec::new();
    let mut i: usize = 0;
    while i < ls.len()
        invariant
            i <= ls@.len(),
            views(ls@) == lv,
            ign == str_views(ignored@),
            cleanup_fold(lv.take(i as int), ign) == (sec, tagged_views(out@)),
        decreases ls.len() - i,
    {
        let ghost t = lv.take(i as int + 1);
        assert(t.drop_last() =~= lv.take(i as int));
        assert(t.last() == lv[i as int]);
        assert(lv[i as int] == ls@[i as int]@);
        let l = &ls[i];
        let ghost before = tagged_views(out@);
        if strip_prefix_exec(l.as_slice(), "Would uninstall").is_some() {
            sec = 1;
        } else if strip_prefix_exec(l.as_slice(), "Would untap").is_some() {
            sec = 2;
        } else if sec == 0 {
        } else if is_name_line_exec(l.as_slice()) {
            let whole = string_of(l.as_slice());
            if sec == 2 {
                if !has_string(ignored, whole.as_str()) {
                    out.push((Manager::Tap, whole));
                    assert(tagged_views(out@) =~= before.push((Manager::Tap, l@)));
                }
            } else {
                let name = string_of(after_last_exec(l.as_slice(), '/').as_slice());
                if !has_string(ignored, name.as_str()) && !has_string(ignored, whole.as_str()) {
                    let ghost nv = name@;
                    out.push((Manager::Brew, name));
                    assert(tagged_views(out@) =~= before.push((Manager::Brew, nv)));
                }
            }
        } else if l.len() > 0 && 'A' <= l[0] && l[0] <= 'Z' {
            sec = 0;
        }
        i += 1;
    }
    assert(lv.take(lv.len() as int) =~= lv);
    out
}

/// A manager `brew bundle` reads from a Brewfile: all but flatpak.
pub open spec fn bundle_manager(m: Manager) -> bool {
    m != Manager::Flatpak
}

/// Each brew-family declaration's token, one per line.
pub open spec fn cleanup_body(ps: Seq<Pkg>) -> Seq<char>
    decreases ps.len(),
{
    if ps.len() == 0 {
        Seq::empty()
    } else if bundle_manager(ps.last().manager) {
        cleanup_body(ps.drop_last()) + ps.last().raw@ + seq!['\n']
    } else {
        cleanup_body(ps.drop_last())
    }
}

/// The Brewfile `brew bundle cleanup` is asked about: every brew-family
/// declaration's token, one per line. Nothing to ask when there are none,
/// unless seeding, where the empty Brewfile is the point.
pub fn cleanup_brewfile(effective: &[Pkg], seed: bool) -> (r: Option<String>)
    ensures
        match r {
            Some(b) => b@ == cleanup_body(effective@) && (b@.len() > 0 || seed),
            None => cleanup_body(effective@).len() == 0 && !seed,
        },
{
    let mut body = String::new();
    let mut wrote = false;
    let mut i: usize = 0;
    while i < effective.len()
        invariant
            i <= effective@.len(),
            body@ == cleanup_body(effective@.take(i as int)),
            wrote == (body@.len() > 0),
        decreases effective.len() - i,
    {
        assert(effective@.take(i as int + 1).drop_last() =~= effective@.take(i as int));
        assert(effective@.take(i as int + 1).last() == effective@[i as int]);
        match effective[i].manager {
            Manager::Flatpak => {},
            _ => {
                push_str(&mut body, effective[i].raw.as_str());
                crate::text::push_char(&mut body, '\n');
                wrote = true;
            },
        }
        i += 1;
    }
    assert(effective@.take(effective@.len() as int) =~= effective@);
    if !wrote && !seed {
        None
    } else {
        Some(body)
    }
}

/// Formulae, casks and taps installed but not needed by the declared set,
/// from what `brew bundle cleanup` reported; `[ignore]`'s brew, cask and tap
/// lists are left out. Nothing when cleanup could not answer.
pub fn brew_extras(ignore: &Ignore, cleanup: Option<String>) -> (r: Vec<(Manager, String)>)
    ensures
        match cleanup {
            Some(text) => tagged_views(r@) == cleanup_fold(
                lines_of(text@),
                str_views(ignore.brew@) + str_views(ignore.cask@) + str_views(ignore.tap@),
            ).1,
            None => r@.len() == 0,
        },
{
    match cleanup {
        Some(text) => {
            let mut ign: Vec<String> = Vec::new();
            append_strings(&mut ign, &ignore.brew);
            append_strings(&mut ign, &ignore.cask);
            append_strings(&mut ign, &ignore.tap);
            parse_cleanup_extras(text.as_str(), ign.as_slice())
        },
        None => Vec::new(),
    }
}

fn append_strings(acc: &mut Vec<String>, more: &Vec<String>)
    ensures
        str_views(final(acc)@) == str_views(old(acc)@) + str_views(more@),
{
    let ghost start = str_views(acc@);
    let mut i: usize = 0;
    while i < more.len()
        invariant
            i <= more@.len(),
            str_views(acc@) == start + str_views(more@).take(i as int),
        decreases more.len() - i,
    {
        let x = more[i].clone();
        let ghost before = str_views(acc@);
        acc.push(x);
        assert(str_views(acc@) =~= before.push(more@[i as int]@));
        assert(str_views(more@).take(i as int + 1) =~= str_views(more@).take(i as int).push(more@[i as int]@));
        i += 1;
    }
    assert(str_views(more@).take(more@.len() as int) =~= str_views(more@));
}

// ---------------------------------------------------------------------------
// Probing

/// The first word of a line, if it has one (`split_whitespace().next()`).
pub open spec fn first_word(l: Seq<char>) -> Option<Seq<char>> {
    let t = trim_start(l);
    if t.len() == 0 {
        None
    } else if has_ws(t) {
        Some(t.take(first_ws(t)))
    } else {
        Some(t)
    }
}

pub open spec fn first_words(ls: Seq<Seq<char>>) -> Seq<Seq<char>>
    decreases ls.len(),
{
    if ls.len() == 0 {
        Seq::empty()
    } else {
        match first_word(ls.last()) {
            Some(w) => first_words(ls.drop_last()).push(w),
            None => first_words(ls.drop_last()),
        }
    }
}

/// A manager's raw listing in the shape declared names take: a `mas list`
/// row's first word (its id), a vscode extension lowercased, anything else
/// as listed.
pub open spec fn normalize_spec(m: Manager, ls: Seq<Seq<char>>) -> Seq<Seq<char>> {
    match m {
        Manager::Mas => first_words(ls),
        Manager::Vscode => ls.map_values(|l: Seq<char>| lowercase(l)),
        _ => ls,
    }
}

pub(crate) fn first_word_exec(l: &[char]) -> (r: Option<Vec<char>>)
    ensures
        match r {
            Some(w) => first_word(l@) == Some(w@),
            None => first_word(l@) is None,
        },
{
    let t = trimmed_start(l);
    if t.len() == 0 {
        return None;
    }
    match find_ws(t.as_slice()) {
        Some(i) => {
            let w = slice(t.as_slice(), 0, i);
            assert(w@ =~= t@.take(i as int));
            Some(w)
        },
        None => Some(t),
    }
}

/// A manager's listing, normalized.
pub fn normalize(m: Manager, ls: Vec<String>) -> (r: Vec<String>)
    ensures
        str_views(r@) == normalize_spec(m, str_views(ls@)),
{
    match m {
        Manager::Mas => {
            let mut out: Vec<String> = Vec::new();
            let mut i: usize = 0;
            while i < ls.len()
                invariant
                    i <= ls@.len(),
                    str_views(out@) == first_words(str_views(ls@).take(i as int)),
                decreases ls.len() - i,
            {
                let ghost t = str_views(ls@).take(i as int + 1);
                assert(t.drop_last() =~= str_views(ls@).take(i as int));
                assert(t.last() == ls@[i as int]@);
                match first_word_exec(chars_of(ls[i].as_str()).as_slice()) {
                    Some(w) => {
                        let ghost before = str_views(out@);
                        out.push(string_of(w.as_slice()));
                        assert(str_views(out@) =~= before.push(w@));
                    },
                    None => {},
                }
                i += 1;
            }
            assert(str_views(ls@).take(ls@.len() as int) =~= str_views(ls@));
            out
        },
        Manager::Vscode => {
            let mut out: Vec<String> = Vec::new();
            let mut i: usize = 0;
            while i < ls.len()
                invariant
                    i <= ls@.len(),
                    str_views(out@) == str_views(ls@).take(i as int).map_values(|l: Seq<char>| lowercase(l)),
                decreases ls.len() - i,
            {
                let x = to_lowercase(ls[i].as_str());
                let ghost before = str_views(out@);
                out.push(x);
                proof {
                    let a = str_views(ls@).take(i as int + 1);
                    let b = str_views(ls@).take(i as int);
                    assert(a =~= b.push(ls@[i as int]@));
                    assert(a.map_values(|l: Seq<char>| lowercase(l)) =~= b.map_values(|l: Seq<char>| lowercase(l)).push(lowercase(ls@[i as int]@)));
                    assert(str_views(out@) =~= before.push(lowercase(ls@[i as int]@)));
                }
                i += 1;
            }
            assert(str_views(ls@).take(ls@.len() as int) =~= str_views(ls@));
            out
        },
        _ => ls,
    }
}

/// A manager is probed when a declared package belongs to it; when seeding,
/// every manager but vscode is too.
pub open spec fn wanted(effective: Seq<Pkg>, seed: bool, m: Manager) -> bool {
    (exists|i: int| 0 <= i < effective.len() && effective[i].manager == m) || (seed && m != Manager::Vscode)
}

/// Whether a probe asks manager `m`.
pub fn probe_wants(effective: &[Pkg], seed: bool, m: Manager) -> (r: bool)
    ensures
        r == wanted(effective@, seed, m),
{
    if seed && m != Manager::Vscode {
        return true;
    }
    let mut i: usize = 0;
    while i < effective.len()
        invariant
            i <= effective@.len(),
            forall|j: int| 0 <= j < i ==> effective@[j].manager != m,
        decreases effective.len() - i,
    {
        if effective[i].manager == m {
            return true;
        }
        i += 1;
    }
    false
}

pub open spec fn opt_lines(o: Option<Vec<String>>) -> Option<Seq<Seq<char>>> {
    match o {
        Some(v) => Some(str_views(v@)),
        None => None,
    }
}

/// The first answer a tool gave for `m`: its listing, or `None` when it ran
/// and failed.
pub open spec fn answer_for(answers: Seq<(Manager, Option<Vec<String>>)>, m: Manager) -> Option<Option<Seq<Seq<char>>>>
    decreases answers.len(),
{
    if answers.len() == 0 {
        None
    } else if answers[0].0 == m {
        Some(opt_lines(answers[0].1))
    } else {
        answer_for(answers.drop_first(), m)
    }
}

/// What a probe records for `m`: nothing when it is not asked or its tool is
/// absent, else the tool's answer.
pub open spec fn probe_outcome(effective: Seq<Pkg>, seed: bool, answers: Seq<(Manager, Option<Vec<String>>)>, m: Manager) -> Option<Option<Seq<Seq<char>>>> {
    if wanted(effective, seed, m) {
        answer_for(answers, m)
    } else {
        None
    }
}

/// An installed snapshot records exactly the probe's outcomes.
pub open spec fn records(v: (Map<Manager, Set<Seq<char>>>, Set<Manager>), m: Manager, o: Option<Option<Seq<Seq<char>>>>) -> bool {
    match o {
        Some(Some(ls)) => v.0.dom().contains(m) && v.0[m] == normalize_spec(m, ls).to_set() && !v.1.contains(m),
        Some(None) => !v.0.dom().contains(m) && v.1.contains(m),
        None => !v.0.dom().contains(m) && !v.1.contains(m),
    }
}

fn find_answer<'a>(answers: &'a [(Manager, Option<Vec<String>>)], m: Manager) -> (r: Option<&'a Option<Vec<String>>>)
    ensures
        match r {
            Some(o) => answer_for(answers@, m) == Some(opt_lines(*o)),
            None => answer_for(answers@, m) is None,
        },
{
    let mut i: usize = 0;
    assert(answers@.subrange(0, answers@.len() as int) =~= answers@);
    while i < answers.len()
        invariant
            i <= answers@.len(),
            answer_for(answers@, m) == answer_for(answers@.subrange(i as int, answers@.len() as int), m),
        decreases answers.len() - i,
    {
        let ghost rest = answers@.subrange(i as int, answers@.len() as int);
        assert(rest[0] == answers@[i as int]);
        if answers[i].0 == m {
            return Some(&answers[i].1);
        }
        assert(rest.drop_first() =~= answers@.subrange(i as int + 1, answers@.len() as int));
        i += 1;
    }
    None
}

fn clone_lines(v: &Vec<String>) -> (r: Vec<String>)
    ensures
        str_views(r@) == str_views(v@),
{
    let mut out: Vec<String> = Vec::new();
    append_strings(&mut out, v);
    assert(str_views(out@) =~= str_views(v@));
    out
}

fn probe_scoped(effective: &[Pkg], seed: bool, answers: &[(Manager, Option<Vec<String>>)]) -> (r: Installed)
    ensures
        forall|m: Manager| records(r@, m, #[trigger] probe_outcome(effective@, seed, answers@, m)),
{
    let mut inst = Installed::default();
    let all = Manager::ALL;
    assert(all@ == all_managers());
    let mut i: usize = 0;
    while i < 6
        invariant
            i <= 6,
            all@ == all_managers(),
            forall|j: int| 0 <= j < i ==> records(inst@, all_managers()[j], probe_outcome(effective@, seed, answers@, #[trigger] all_managers()[j])),
            forall|j: int| i <= j < 6 ==> records(inst@, all_managers()[j], None::<Option<Seq<Seq<char>>>>) && #[trigger] all_managers()[j] == all_managers()[j],
        decreases 6 - i,
    {
        let m = all[i];
        let ghost before = inst@;
        if probe_wants(effective, seed, m) {
            match find_answer(answers, m) {
                Some(Some(ls)) => {
                    let names = normalize(m, clone_lines(ls));
                    inst.set(m, names);
                },
                Some(None) => {
                    inst.unavailable(m);
                },
                None => {},
            }
        }
        proof {
            assert forall|j: int| 0 <= j < 6 && j != i implies all_managers()[j] != m by {}
        }
        i += 1;
    }
    proof {
        assert forall|m: Manager| records(inst@, m, #[trigger] probe_outcome(effective@, seed, answers@, m)) by {
            let j: int = match m {
                Manager::Brew => 0,
                Manager::Cask => 1,
                Manager::Tap => 2,
                Manager::Flatpak => 3,
                Manager::Mas => 4,
                Manager::Vscode => 5,
            };
            assert(all_managers()[j] == m);
        }
    }
    inst
}

/// What is installed, for the managers a declared package belongs to and
/// whose tool answered: `answers` holds, for each manager whose tool is
/// present, its listing or `None` when it ran and failed. Any other manager
/// stays unprobed.
pub fn probe(effective: &[Pkg], answers: &[(Manager, Option<Vec<String>>)]) -> (r: Installed)
    ensures
        forall|m: Manager| records(r@, m, #[trigger] probe_outcome(effective@, false, answers@, m)),
{
    probe_scoped(effective, false, answers)
}

/// `probe` for seeding a new spec: every manager whose tool answered, vscode
/// excepted.
pub fn probe_seeding(answers: &[(Manager, Option<Vec<String>>)]) -> (r: Installed)
    ensures
        forall|m: Manager| records(r@, m, #[trigger] probe_outcome(Seq::<Pkg>::empty(), true, answers@, m)),
{
    let none: Vec<Pkg> = Vec::new();
    assert(none@ =~= Seq::<Pkg>::empty());
    probe_scoped(none.as_slice(), true, answers)
}

// ---------------------------------------------------------------------------
// Composing declarations from bundles and the machine

/// What one composed bundle declares for the providers here, with the os and
/// role it is gated on.
#[derive(Debug, Clone)]
pub struct BundleDecl {
    pub app: String,
    pub os: Option<String>,
    pub role: Option<String>,
    pub gnome_extensions: Vec<GnomeExtension>,
    pub rpm_ostree: Vec<String>,
    pub flatpak_remotes: Vec<String>,
}

/// The bundle applies to the machine: its os/role gate lets it through.
pub open spec fn applies(b: BundleDecl, m: Machine) -> bool {
    !gated_spec(opt_str(b.os), opt_str(b.role), m.os@, opt_str(m.role))
}

/// Every extension the applying bundles declare, bundle by bundle.
pub open spec fn bundle_exts(bs: Seq<BundleDecl>, m: Machine) -> Seq<GnomeExtension>
    decreases bs.len(),
{
    if bs.len() == 0 {
        Seq::empty()
    } else {
        bundle_exts(bs.drop_last(), m) + if applies(bs.last(), m) { bs.last().gnome_extensions@ } else { Seq::empty() }
    }
}

/// Where the first extension with this uuid stands, or `-1`.
pub open spec fn ext_pos(acc: Seq<GnomeExtension>, u: Seq<char>) -> int
    decreases acc.len(),
{
    if acc.len() == 0 {
        -1
    } else {
        let p = ext_pos(acc.drop_last(), u);
        if p >= 0 {
            p
        } else if acc.last().uuid_spec() == u {
            acc.len() - 1
        } else {
            -1
        }
    }
}

/// `xs` added to `acc`, an extension whose uuid is already there skipped.
pub open spec fn first_wins(acc: Seq<GnomeExtension>, xs: Seq<GnomeExtension>) -> Seq<GnomeExtension>
    decreases xs.len(),
{
    if xs.len() == 0 {
        acc
    } else {
        let a = first_wins(acc, xs.drop_last());
        if ext_pos(a, xs.last().uuid_spec()) >= 0 {
            a
        } else {
            a.push(xs.last())
        }
    }
}

/// `xs` added to `acc`, an extension whose uuid is already there replacing
/// that entry in place.
pub open spec fn own_wins(acc: Seq<GnomeExtension>, xs: Seq<GnomeExtension>) -> Seq<GnomeExtension>
    decreases xs.len(),
{
    if xs.len() == 0 {
        acc
    } else {
        let a = own_wins(acc, xs.drop_last());
        let p = ext_pos(a, xs.last().uuid_spec());
        if p >= 0 {
            a.update(p, xs.last())
        } else {
            a.push(xs.last())
        }
    }
}

/// The machine's extensions: the applying bundles' declarations, the first
/// per uuid, then the machine's own, each replacing a bundle's for the same
/// uuid.
pub open spec fn ext_specs(bs: Seq<BundleDecl>, m: Machine, own: Seq<GnomeExtension>) -> Seq<GnomeExtension> {
    own_wins(first_wins(Seq::empty(), bundle_exts(bs, m)), own)
}

proof fn lemma_ext_pos(acc: Seq<GnomeExtension>, u: Seq<char>)
    ensures
        -1 <= ext_pos(acc, u) < acc.len(),
        ext_pos(acc, u) >= 0 ==> acc[ext_pos(acc, u)].uuid_spec() == u && forall|j: int| 0 <= j < ext_pos(acc, u) ==> acc[j].uuid_spec() != u,
        ext_pos(acc, u) < 0 ==> forall|j: int| 0 <= j < acc.len() ==> acc[j].uuid_spec() != u,
    decreases acc.len(),
{
    if acc.len() > 0 {
        lemma_ext_pos(acc.drop_last(), u);
        assert forall|j: int| 0 <= j < acc.len() - 1 implies acc[j] == acc.drop_last()[j] by {}
    }
}

fn find_ext(acc: &Vec<GnomeExtension>, u: &str) -> (r: Option<usize>)
    ensures
        match r {
            Some(p) => ext_pos(acc@, u@) == p && p < acc@.len(),
            None => ext_pos(acc@, u@) < 0,
        },
{
    proof {
        lemma_ext_pos(acc@, u@);
    }
    let uc = chars_of(u);
    let mut i: usize = 0;
    while i < acc.len()
        invariant
            i <= acc@.len(),
            uc@ == u@,
            -1 <= ext_pos(acc@, u@) < acc@.len(),
            ext_pos(acc@, u@) >= 0 ==> acc@[ext_pos(acc@, u@)].uuid_spec() == u@ && forall|j: int| 0 <= j < ext_pos(acc@, u@) ==> acc@[j].uuid_spec() != u@,
            ext_pos(acc@, u@) < 0 ==> forall|j: int| 0 <= j < acc@.len() ==> acc@[j].uuid_spec() != u@,
            forall|j: int| 0 <= j < i ==> acc@[j].uuid_spec() != u@,
        decreases acc.len() - i,
    {
        if same(chars_of(acc[i].uuid()).as_slice(), uc.as_slice()) {
            return Some(i);
        }
        i += 1;
    }
    None
}

fn add_first_wins(out: &mut Vec<GnomeExtension>, xs: Vec<GnomeExtension>)
    ensures
        final(out)@ == first_wins(old(out)@, xs@),
{
    let ghost start = out@;
    let ghost all = xs@;
    let n = xs.len();
    let mut rest = xs;
    let mut k: usize = 0;
    while rest.len() > 0
        invariant
            all.len() == n,
            k + rest@.len() == all.len(),
            rest@ == all.skip(k as int),
            out@ == first_wins(start, all.take(k as int)),
        decreases rest.len(),
    {
        let e = rest.remove(0);
        assert(e == all[k as int]);
        assert(all.take(k as int + 1).drop_last() =~= all.take(k as int));
        assert(all.take(k as int + 1).last() == e);
        match find_ext(out, e.uuid()) {
            Some(_) => {},
            None => {
                out.push(e);
            },
        }
        assert(rest@ =~= all.skip(k as int + 1));
        k += 1;
    }
    assert(all.take(all.len() as int) =~= all);
}

fn add_own_wins(out: &mut Vec<GnomeExtension>, xs: Vec<GnomeExtension>)
    ensures
        final(out)@ == own_wins(old(out)@, xs@),
{
    let ghost start = out@;
    let ghost all = xs@;
    let n = xs.len();
    let mut rest = xs;
    let mut k: usize = 0;
    while rest.len() > 0
        invariant
            all.len() == n,
            k + rest@.len() == all.len(),
            rest@ == all.skip(k as int),
            out@ == own_wins(start, all.take(k as int)),
        decreases rest.len(),
    {
        let e = rest.remove(0);
        assert(e == all[k as int]);
        assert(all.take(k as int + 1).drop_last() =~= all.take(k as int));
        assert(all.take(k as int + 1).last() == e);
        match find_ext(out, e.uuid()) {
            Some(p) => {
                out.set(p, e);
            },
            None => {
                out.push(e);
            },
        }
        assert(rest@ =~= all.skip(k as int + 1));
        k += 1;
    }
    assert(all.take(all.len() as int) =~= all);
}

proof fn lemma_first_wins_concat(acc: Seq<GnomeExtension>, xs: Seq<GnomeExtension>, ys: Seq<GnomeExtension>)
    ensures
        first_wins(acc, xs + ys) == first_wins(first_wins(acc, xs), ys),
    decreases ys.len(),
{
    if ys.len() == 0 {
        assert(xs + ys =~= xs);
    } else {
        lemma_first_wins_concat(acc, xs, ys.drop_last());
        assert((xs + ys).drop_last() =~= xs + ys.drop_last());
        assert((xs + ys).last() == ys.last());
    }
}

/// Every extension this machine declares: the applying bundles' (the first
/// per uuid), then the machine's own, which replace a bundle's declaration of
/// the same uuid.
pub fn effective_extension_specs(bundles: Vec<BundleDecl>, machine: &Machine, own: Vec<GnomeExtension>) -> (r: Vec<GnomeExtension>)
    ensures
        r@ == ext_specs(bundles@, *machine, own@),
{
    let ghost all = bundles@;
    let n = bundles.len();
    let mut rest = bundles;
    let mut out: Vec<GnomeExtension> = Vec::new();
    let mut k: usize = 0;
    assert(all.take(0) =~= Seq::<BundleDecl>::empty());
    while rest.len() > 0
        invariant
            all.len() == n,
            k + rest@.len() == all.len(),
            rest@ == all.skip(k as int),
            out@ == first_wins(Seq::empty(), bundle_exts(all.take(k as int), *machine)),
        decreases rest.len(),
    {
        let b = rest.remove(0);
        assert(b == all[k as int]);
        let ghost t = all.take(k as int + 1);
        assert(t.drop_last() =~= all.take(k as int));
        assert(t.last() == b);
        let skip = gated(&b.os, &b.role, machine);
        let ghost added = if applies(b, *machine) { b.gnome_extensions@ } else { Seq::<GnomeExtension>::empty() };
        proof {
            lemma_first_wins_concat(Seq::empty(), bundle_exts(all.take(k as int), *machine), added);
        }
        if !skip {
            add_first_wins(&mut out, b.gnome_extensions);
        } else {
            assert(added =~= Seq::<GnomeExtension>::empty());
        }
        assert(rest@ =~= all.skip(k as int + 1));
        k += 1;
    }
    assert(all.take(all.len() as int) =~= all);
    add_own_wins(&mut out, own);
    out
}

/// Just the uuids of `effective_extension_specs`.
pub fn effective_extensions(bundles: Vec<BundleDecl>, machine: &Machine, own: Vec<GnomeExtension>) -> (r: Vec<String>)
    ensures
        str_views(r@) == ext_specs(bundles@, *machine, own@).map_values(|e: GnomeExtension| e.uuid_spec()),
{
    let specs = effective_extension_specs(bundles, machine, own);
    let mut out: Vec<String> = Vec::new();
    let mut i: usize = 0;
    while i < specs.len()
        invariant
            i <= specs@.len(),
            str_views(out@) == specs@.take(i as int).map_values(|e: GnomeExtension| e.uuid_spec()),
        decreases specs.len() - i,
    {
        let mut u = String::new();
        push_str(&mut u, specs[i].uuid());
        assert(u@ =~= specs@[i as int].uuid_spec());
        let ghost before = str_views(out@);
        out.push(u);
        proof {
            let a = specs@.take(i as int + 1);
            let b = specs@.take(i as int);
            assert(a =~= b.push(specs@[i as int]));
            assert(a.map_values(|e: GnomeExtension| e.uuid_spec()) =~= b.map_values(|e: GnomeExtension| e.uuid_spec()).push(specs@[i as int].uuid_spec()));
            assert(str_views(out@) =~= before.push(specs@[i as int].uuid_spec()));
        }
        i += 1;
    }
    assert(specs@.take(specs@.len() as int) =~= specs@);
    out
}

/// The settings snapshots some of these extensions carry, in order.
pub open spec fn snapshots_of(es: Seq<GnomeExtension>) -> Seq<DconfSnapshot>
    decreases es.len(),
{
    if es.len() == 0 {
        Seq::empty()
    } else {
        match es.last() {
            GnomeExtension::Spec(s) => match s.settings {
                Some(d) => snapshots_of(es.drop_last()).push(d),
                None => snapshots_of(es.drop_last()),
            },
            GnomeExtension::Uuid(_) => snapshots_of(es.drop_last()),
        }
    }
}

/// Every snapshot these declared extensions bring with them.
pub fn extension_snapshots(specs: &[GnomeExtension]) -> (r: Vec<&DconfSnapshot>)
    ensures
        r@.map_values(|d: &DconfSnapshot| *d) == snapshots_of(specs@),
{
    let mut out: Vec<&DconfSnapshot> = Vec::new();
    let mut i: usize = 0;
    while i < specs.len()
        invariant
            i <= specs@.len(),
            out@.map_values(|d: &DconfSnapshot| *d) == snapshots_of(specs@.take(i as int)),
        decreases specs.len() - i,
    {
        let ghost t = specs@.take(i as int + 1);
        assert(t.drop_last() =~= specs@.take(i as int));
        assert(t.last() == specs@[i as int]);
        match specs[i].settings_snapshot() {
            Some(d) => {
                let ghost before = out@.map_values(|d: &DconfSnapshot| *d);
                out.push(d);
                assert(out@.map_values(|d: &DconfSnapshot| *d) =~= before.push(*d));
            },
            None => {},
        }
        i += 1;
    }
    assert(specs@.take(specs@.len() as int) =~= specs@);
    out
}

/// Declared, installed extensions whose switched-on state differs from the
/// declaration, with the state each should have.
pub open spec fn enable_drift_spec(specs: Seq<GnomeExtension>, installed: Seq<Seq<char>>, enabled: Seq<Seq<char>>) -> Seq<(Seq<char>, bool)>
    decreases specs.len(),
{
    if specs.len() == 0 {
        Seq::empty()
    } else {
        let w = enable_drift_spec(specs.drop_last(), installed, enabled);
        let e = specs.last();
        if installed.contains(e.uuid_spec()) && enabled.contains(e.uuid_spec()) != e.enabled_spec() {
            w.push((e.uuid_spec(), e.enabled_spec()))
        } else {
            w
        }
    }
}

/// Extensions whose switched-on state does not match their declaration:
/// nothing when none are declared or either listing could not be had.
pub fn gext_enable_drift(specs: &[GnomeExtension], installed: Option<Vec<String>>, enabled: Option<Vec<String>>) -> (r: Vec<(String, bool)>)
    ensures
        (specs@.len() == 0 || installed is None || enabled is None) ==> r@.len() == 0,
        specs@.len() > 0 ==> (installed matches Some(i) ==> (enabled matches Some(e) ==> r@.map_values(|p: (String, bool)| (p.0@, p.1))
            == enable_drift_spec(specs@, str_views(i@), str_views(e@)))),
{
    if specs.len() == 0 {
        return Vec::new();
    }
    let (inst, en) = match (installed, enabled) {
        (Some(a), Some(b)) => (a, b),
        _ => {
            return Vec::new();
        },
    };
    let mut out: Vec<(String, bool)> = Vec::new();
    let mut k: usize = 0;
    while k < specs.len()
        invariant
            k <= specs@.len(),
            out@.map_values(|p: (String, bool)| (p.0@, p.1)) == enable_drift_spec(specs@.take(k as int), str_views(inst@), str_views(en@)),
        decreases specs.len() - k,
    {
        let ghost t = specs@.take(k as int + 1);
        assert(t.drop_last() =~= specs@.take(k as int));
        assert(t.last() == specs@[k as int]);
        let u = specs[k].uuid();
        if has_string(inst.as_slice(), u) && has_string(en.as_slice(), u) != specs[k].enabled() {
            let mut us = String::new();
            push_str(&mut us, u);
            let ghost before = out@.map_values(|p: (String, bool)| (p.0@, p.1));
            out.push((us, specs[k].enabled()));
            assert(out@.map_values(|p: (String, bool)| (p.0@, p.1)) =~= before.push((specs@[k as int].uuid_spec(), specs@[k as int].enabled_spec())));
        }
        k += 1;
    }
    assert(specs@.take(specs@.len() as int) =~= specs@);
    out
}

/// Every rpm the applying bundles declare, bundle by bundle.
pub open spec fn bundle_rpms(bs: Seq<BundleDecl>, m: Machine) -> Seq<Seq<char>>
    decreases bs.len(),
{
    if bs.len() == 0 {
        Seq::empty()
    } else {
        bundle_rpms(bs.drop_last(), m) + if applies(bs.last(), m) { str_views(bs.last().rpm_ostree@) } else { Seq::empty() }
    }
}

/// Every remote token the applying bundles declare, bundle by bundle.
pub open spec fn bundle_remotes(bs: Seq<BundleDecl>, m: Machine) -> Seq<Seq<char>>
    decreases bs.len(),
{
    if bs.len() == 0 {
        Seq::empty()
    } else {
        bundle_remotes(bs.drop_last(), m) + if applies(bs.last(), m) { str_views(bs.last().flatpak_remotes@) } else { Seq::empty() }
    }
}

/// The applying bundles' rpm lists (or remote lists), concatenated.
fn gather(bundles: &[BundleDecl], machine: &Machine, rpms: bool) -> (r: Vec<String>)
    ensures
        str_views(r@) == if rpms { bundle_rpms(bundles@, *machine) } else { bundle_remotes(bundles@, *machine) },
{
    let mut out: Vec<String> = Vec::new();
    let mut k: usize = 0;
    while k < bundles.len()
        invariant
            k <= bundles@.len(),
            str_views(out@) == if rpms { bundle_rpms(bundles@.take(k as int), *machine) } else { bundle_remotes(bundles@.take(k as int), *machine) },
        decreases bundles.len() - k,
    {
        let ghost t = bundles@.take(k as int + 1);
        assert(t.drop_last() =~= bundles@.take(k as int));
        assert(t.last() == bundles@[k as int]);
        let b = &bundles[k];
        if !gated(&b.os, &b.role, machine) {
            if rpms {
                append_strings(&mut out, &b.rpm_ostree);
            } else {
                append_strings(&mut out, &b.flatpak_remotes);
            }
        } else {
            assert(str_views(out@) =~= str_views(out@) + Seq::<Seq<char>>::empty());
        }
        k += 1;
    }
    assert(bundles@.take(bundles@.len() as int) =~= bundles@);
    out
}

/// Every rpm this machine layers: the applying bundles' lists, then its
/// own, each package once, in first-declared order.
pub fn effective_rpm(bundles: &[BundleDecl], machine: &Machine) -> (r: Vec<String>)
    ensures
        str_views(r@) == push_new(Seq::empty(), bundle_rpms(bundles@, *machine) + str_views(machine.rpm_ostree@)),
{
    let mut all = gather(bundles, machine, true);
    append_strings(&mut all, &machine.rpm_ostree);
    let mut out: Vec<String> = Vec::new();
    assert(str_views(out@) =~= Seq::<Seq<char>>::empty());
    push_new_exec(&mut out, all.as_slice());
    out
}

/// Declared remotes: each token that parses, the first declaration of a
/// name winning.
pub open spec fn remotes_fold(ts: Seq<Seq<char>>) -> Seq<(Seq<char>, Seq<char>)>
    decreases ts.len(),
{
    if ts.len() == 0 {
        Seq::empty()
    } else {
        let w = remotes_fold(ts.drop_last());
        match parse_remote_spec(ts.last()) {
            Some((n, u)) => if exists|k: int| 0 <= k < w.len() && #[trigger] w[k].0 == n { w } else { w.push((n, u)) },
            None => w,
        }
    }
}

/// Every remote this machine declares: its applying bundles', then its own;
/// the first declaration of a name wins.
pub fn effective_remotes(bundles: &[BundleDecl], machine: &Machine) -> (r: Vec<(String, String)>)
    ensures
        pair_views(r@) == remotes_fold(bundle_remotes(bundles@, *machine) + str_views(machine.flatpak_remotes@)),
{
    let mut all = gather(bundles, machine, false);
    append_strings(&mut all, &machine.flatpak_remotes);
    let ghost ts = str_views(all@);
    let mut out: Vec<(String, String)> = Vec::new();
    let mut i: usize = 0;
    while i < all.len()
        invariant
            i <= all@.len(),
            ts == str_views(all@),
            pair_views(out@) == remotes_fold(ts.take(i as int)),
        decreases all.len() - i,
    {
        let ghost t = ts.take(i as int + 1);
        assert(t.drop_last() =~= ts.take(i as int));
        assert(t.last() == all@[i as int]@);
        match parse_remote(all[i].as_str()) {
            Some((n, u)) => {
                let ghost w = pair_views(out@);
                let mut found = false;
                let mut k: usize = 0;
                while k < out.len()
                    invariant
                        k <= out@.len(),
                        w == pair_views(out@),
                        found == exists|q: int| 0 <= q < k && #[trigger] w[q].0 == n@,
                    decreases out.len() - k,
                {
                    if same(chars_of(out[k].0.as_str()).as_slice(), chars_of(n.as_str()).as_slice()) {
                        assert(w[k as int].0 == n@);
                        found = true;
                    }
                    k += 1;
                }
                if !found {
                    let ghost nv = (n@, u@);
                    out.push((n, u));
                    assert(pair_views(out@) =~= w.push(nv));
                }
            },
            None => {},
        }
        i += 1;
    }
    assert(ts.take(ts.len() as int) =~= ts);
    out
}

/// A parsed remote with this name.
pub open spec fn remote_named(p: Option<(Seq<char>, Seq<char>)>, n: Seq<char>) -> bool {
    match p {
        Some((x, _)) => x == n,
        None => false,
    }
}

/// The bundle declares this item of this kind.
pub open spec fn declares(b: BundleDecl, kind: DeclKind, item: Seq<char>) -> bool {
    match kind {
        DeclKind::GnomeExtension => exists|k: int| 0 <= k < b.gnome_extensions@.len() && #[trigger] b.gnome_extensions@[k].uuid_spec() == item,
        DeclKind::RpmOstree => str_views(b.rpm_ostree@).contains(item),
        DeclKind::FlatpakRemote => exists|k: int|
            0 <= k < b.flatpak_remotes@.len() && remote_named(#[trigger] parse_remote_spec(b.flatpak_remotes@[k]@), item),
    }
}

/// The file of the first applying bundle that declares the item.
pub open spec fn declaring_spec(bs: Seq<BundleDecl>, m: Machine, kind: DeclKind, item: Seq<char>) -> Option<Seq<char>>
    decreases bs.len(),
{
    if bs.len() == 0 {
        None
    } else if applies(bs[0], m) && declares(bs[0], kind, item) {
        Some("apps/"@ + bs[0].app@ + ".toml"@)
    } else {
        declaring_spec(bs.drop_first(), m, kind, item)
    }
}

fn declares_exec(b: &BundleDecl, kind: DeclKind, item: &str) -> (r: bool)
    ensures
        r == declares(*b, kind, item@),
{
    let ic = chars_of(item);
    match kind {
        DeclKind::GnomeExtension => {
            let mut k: usize = 0;
            while k < b.gnome_extensions.len()
                invariant
                    k <= b.gnome_extensions@.len(),
                    kind == DeclKind::GnomeExtension,
                    ic@ == item@,
                    forall|q: int| 0 <= q < k ==> #[trigger] b.gnome_extensions@[q].uuid_spec() != item@,
                decreases b.gnome_extensions.len() - k,
            {
                if same(chars_of(b.gnome_extensions[k].uuid()).as_slice(), ic.as_slice()) {
                    assert(b.gnome_extensions@[k as int].uuid_spec() == item@);
                    return true;
                }
                k += 1;
            }
            false
        },
        DeclKind::RpmOstree => has_string(b.rpm_ostree.as_slice(), item),
        DeclKind::FlatpakRemote => {
            let mut k: usize = 0;
            while k < b.flatpak_remotes.len()
                invariant
                    k <= b.flatpak_remotes@.len(),
                    kind == DeclKind::FlatpakRemote,
                    ic@ == item@,
                    forall|q: int| 0 <= q < k ==> !remote_named(#[trigger] parse_remote_spec(b.flatpak_remotes@[q]@), item@),
                decreases b.flatpak_remotes.len() - k,
            {
                match parse_remote(b.flatpak_remotes[k].as_str()) {
                    Some((n, _)) => {
                        if same(chars_of(n.as_str()).as_slice(), ic.as_slice()) {
                            assert(remote_named(parse_remote_spec(b.flatpak_remotes@[k as int]@), item@));
                            return true;
                        }
                    },
                    None => {},
                }
                k += 1;
            }
            false
        },
    }
}

/// Which bundle file declares this item, if an applying bundle does: `None`
/// when only the machine's own block can.
pub fn declaring_bundle(bundles: &[BundleDecl], machine: &Machine, kind: DeclKind, item: &str) -> (r: Option<String>)
    ensures
        match r {
            Some(f) => declaring_spec(bundles@, *machine, kind, item@) == Some(f@),
            None => declaring_spec(bundles@, *machine, kind, item@) is None,
        },
{
    let mut i: usize = 0;
    assert(bundles@.subrange(0, bundles@.len() as int) =~= bundles@);
    while i < bundles.len()
        invariant
            i <= bundles@.len(),
            declaring_spec(bundles@, *machine, kind, item@) == declaring_spec(bundles@.subrange(i as int, bundles@.len() as int), *machine, kind, item@),
        decreases bundles.len() - i,
    {
        let ghost rest = bundles@.subrange(i as int, bundles@.len() as int);
        assert(rest[0] == bundles@[i as int]);
        let b = &bundles[i];
        if !gated(&b.os, &b.role, machine) && declares_exec(b, kind, item) {
            let mut f = String::new();
            push_str(&mut f, "apps/");
            push_str(&mut f, b.app.as_str());
            push_str(&mut f, ".toml");
            assert(f@ =~= "apps/"@ + b.app@ + ".toml"@);
            return Some(f);
        }
        assert(rest.drop_first() =~= bundles@.subrange(i as int + 1, bundles@.len() as int));
        i += 1;
    }
    None
}


// ---------------------------------------------------------------------------
// Tool listings.

/// A `name<TAB>url` row of `flatpak remotes --columns=name,url`, both sides
/// trimmed; none without a tab.
pub open spec fn remote_row(l: Seq<char>) -> Option<(Seq<char>, Seq<char>)> {
    if has_char(l, '\t') {
        Some((trim(before(l, '\t')), trim(after(l, '\t'))))
    } else {
        None
    }
}

pub open spec fn remote_rows(ls: Seq<Seq<char>>) -> Seq<(Seq<char>, Seq<char>)>
    decreases ls.len(),
{
    if ls.len() == 0 {
        Seq::empty()
    } else {
        match remote_row(ls.last()) {
            Some(r) => remote_rows(ls.drop_last()).push(r),
            None => remote_rows(ls.drop_last()),
        }
    }
}

fn parse_remote_listing(text: &str) -> (r: Vec<(String, String)>)
    ensures
        pair_views_ss(r@) == remote_rows(lines_of(text@)),
{
    let ls = lines(chars_of(text).as_slice());
    let mut out: Vec<(String, String)> = Vec::new();
    let mut i: usize = 0;
    while i < ls.len()
        invariant
            i <= ls@.len(),
            views(ls@) == lines_of(text@),
            pair_views_ss(out@) == remote_rows(views(ls@).take(i as int)),
        decreases ls.len() - i,
    {
        proof {
            let t = views(ls@).take(i as int + 1);
            assert(t.drop_last() =~= views(ls@).take(i as int));
            assert(t.last() == ls@[i as int]@);
        }
        let l = &ls[i];
        match find_char(l.as_slice(), '\t') {
            Some(k) => {
                assert(is_first(l@, '\t', k as int));
                assert(k < l.len());
                assert(has_char(l@, '\t'));
                let n = trimmed(slice(l.as_slice(), 0, k).as_slice());
                let u = trimmed(slice(l.as_slice(), k + 1, l.len()).as_slice());
                let ghost before = pair_views_ss(out@);
                out.push((string_of(n.as_slice()), string_of(u.as_slice())));
                assert(pair_views_ss(out@) =~= before.push((n@, u@)));
            },
            None => {},
        }
        i += 1;
    }
    assert(views(ls@).take(ls@.len() as int) =~= views(ls@));
    out
}

pub open spec fn pair_views_ss(v: Seq<(String, String)>) -> Seq<(Seq<char>, Seq<char>)> {
    v.map_values(|p: (String, String)| (p.0@, p.1@))
}

/// The remotes both installations configure, from the output of `flatpak
/// remotes --columns=name,url` (none when flatpak is absent or failed).
pub fn flatpak_remotes_installed(output: Option<String>) -> (r: Option<Vec<(String, String)>>)
    ensures
        match output {
            None => r is None,
            Some(o) => r matches Some(v) && pair_views_ss(v@) == remote_rows(lines_of(o@)),
        },
{
    match output {
        None => None,
        Some(o) => Some(parse_remote_listing(o.as_str())),
    }
}

/// The user installation's remotes, the ones temper may remove, from the
/// output of the same listing with `--user`.
pub fn flatpak_user_remotes(output: Option<String>) -> (r: Option<Vec<(String, String)>>)
    ensures
        match output {
            None => r is None,
            Some(o) => r matches Some(v) && pair_views_ss(v@) == remote_rows(lines_of(o@)),
        },
{
    flatpak_remotes_installed(output)
}

/// The non-blank lines of a listing, trimmed.
pub open spec fn listed(ls: Seq<Seq<char>>) -> Seq<Seq<char>>
    decreases ls.len(),
{
    if ls.len() == 0 {
        Seq::empty()
    } else if trim(ls.last()).len() > 0 {
        listed(ls.drop_last()).push(trim(ls.last()))
    } else {
        listed(ls.drop_last())
    }
}

/// The extensions GNOME has switched on, from `gnome-extensions list
/// --enabled` (none when it could not be asked).
pub fn gext_enabled(output: Option<String>) -> (r: Option<Vec<String>>)
    ensures
        match output {
            None => r is None,
            Some(o) => r matches Some(v) && str_views(v@) == listed(lines_of(o@)),
        },
{
    match output {
        None => None,
        Some(o) => {
            let ls = lines(chars_of(o.as_str()).as_slice());
            let mut out: Vec<String> = Vec::new();
            let mut i: usize = 0;
            while i < ls.len()
                invariant
                    i <= ls@.len(),
                    views(ls@) == lines_of(o@),
                    str_views(out@) == listed(views(ls@).take(i as int)),
                decreases ls.len() - i,
            {
                proof {
                    let t = views(ls@).take(i as int + 1);
                    assert(t.drop_last() =~= views(ls@).take(i as int));
                    assert(t.last() == ls@[i as int]@);
                }
                let t = trimmed(ls[i].as_slice());
                if t.len() > 0 {
                    let ghost before = str_views(out@);
                    out.push(string_of(t.as_slice()));
                    assert(str_views(out@) =~= before.push(t@));
                }
                i += 1;
            }
            assert(views(ls@).take(ls@.len() as int) =~= views(ls@));
            Some(out)
        },
    }
}

/// The brew-family extras when seeding a new spec: what cleanup reported
/// against the empty Brewfile, `[ignore]` left out.
pub fn brew_extras_seeding(ignore: &Ignore, cleanup: Option<String>) -> (r: Vec<(Manager, String)>)
    ensures
        match cleanup {
            Some(text) => tagged_views(r@) == cleanup_fold(
                lines_of(text@),
                str_views(ignore.brew@) + str_views(ignore.cask@) + str_views(ignore.tap@),
            ).1,
            None => r@.len() == 0,
        },
{
    brew_extras(ignore, cleanup)
}


// ---------------------------------------------------------------------------
// rpm-ostree deployments.

/// One deployment in `rpm-ostree status --json`: whether it is staged or
/// booted, and the packages it layers.
#[derive(Debug, Clone, PartialEq, Eq)]
pub struct Deployment {
    pub staged: bool,
    pub booted: bool,
    pub requested: Vec<String>,
}

/// The first deployment a flag marks.
pub open spec fn first_flagged(ds: Seq<Deployment>, staged: bool) -> Option<int>
    decreases ds.len(),
{
    if ds.len() == 0 {
        None
    } else if (if staged { ds[0].staged } else { ds[0].booted }) {
        Some(0)
    } else {
        match first_flagged(ds.drop_first(), staged) {
            Some(i) => Some(i + 1),
            None => None,
        }
    }
}

/// The deployment that says what the machine will be: the staged one when a
/// change is pending, else the booted one, else the first. A rollback is
/// history, not state.
pub open spec fn current_deployment(ds: Seq<Deployment>) -> Option<int> {
    match first_flagged(ds, true) {
        Some(i) => Some(i),
        None => match first_flagged(ds, false) {
            Some(i) => Some(i),
            None => if ds.len() > 0 { Some(0) } else { None },
        },
    }
}

proof fn lemma_first_flagged(ds: Seq<Deployment>, staged: bool)
    ensures
        first_flagged(ds, staged) matches Some(i) ==> 0 <= i < ds.len(),
    decreases ds.len(),
{
    if ds.len() > 0 {
        lemma_first_flagged(ds.drop_first(), staged);
    }
}

fn find_flagged(ds: &[Deployment], staged: bool) -> (r: Option<usize>)
    ensures
        match r {
            Some(i) => first_flagged(ds@, staged) == Some(i as int),
            None => first_flagged(ds@, staged) is None,
        },
{
    let mut i: usize = 0;
    while i < ds.len()
        invariant
            i <= ds@.len(),
            forall|k: int| 0 <= k < i ==> !(if staged { ds@[k].staged } else { ds@[k].booted }),
        decreases ds.len() - i,
    {
        let hit = if staged { ds[i].staged } else { ds[i].booted };
        if hit {
            proof {
                lemma_first_flagged_prefix(ds@, staged, i as int);
            }
            return Some(i);
        }
        i += 1;
    }
    proof {
        lemma_first_flagged_none(ds@, staged);
    }
    None
}

proof fn lemma_first_flagged_prefix(ds: Seq<Deployment>, staged: bool, i: int)
    requires
        0 <= i < ds.len(),
        if staged { ds[i].staged } else { ds[i].booted },
        forall|k: int| 0 <= k < i ==> !(if staged { ds[k].staged } else { ds[k].booted }),
    ensures
        first_flagged(ds, staged) == Some(i),
    decreases i,
{
    if i > 0 {
        let t = ds.drop_first();
        assert forall|k: int| 0 <= k < i - 1 implies !(if staged { t[k].staged } else { t[k].booted }) by {
            assert(t[k] == ds[k + 1]);
        }
        lemma_first_flagged_prefix(t, staged, i - 1);
    }
}

proof fn lemma_first_flagged_none(ds: Seq<Deployment>, staged: bool)
    requires
        forall|k: int| 0 <= k < ds.len() ==> !(if staged { ds[k].staged } else { ds[k].booted }),
    ensures
        first_flagged(ds, staged) is None,
    decreases ds.len(),
{
    if ds.len() > 0 {
        let t = ds.drop_first();
        assert forall|k: int| 0 <= k < t.len() implies !(if staged { t[k].staged } else { t[k].booted }) by {
            assert(t[k] == ds[k + 1]);
        }
        lemma_first_flagged_none(t, staged);
    }
}

/// The layered set named by the current deployment, sorted and without
/// repeats: none when the status could not be read or lists no deployment.
pub fn requested_from_status(deployments: Option<Vec<Deployment>>) -> (r: Option<Vec<String>>)
    ensures
        match deployments {
            None => r is None,
            Some(ds) => match current_deployment(ds@) {
                None => r is None,
                Some(i) => r matches Some(v) && sorted_strs(str_views(v@))
                    && forall|y: Seq<char>| #[trigger] str_views(v@).contains(y) <==> str_views(ds@[i].requested@).contains(y),
            },
        },
{
    let ds = match deployments {
        None => return None,
        Some(ds) => ds,
    };
    proof {
        lemma_first_flagged(ds@, true);
        lemma_first_flagged(ds@, false);
    }
    let i = match find_flagged(ds.as_slice(), true) {
        Some(i) => i,
        None => match find_flagged(ds.as_slice(), false) {
            Some(i) => i,
            None => {
                if ds.len() == 0 {
                    return None;
                }
                0
            },
        },
    };
    Some(sorted_unique(ds[i].requested.as_slice()))
}

} // verus!
