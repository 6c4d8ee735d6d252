//! Drift-only assertions: checks that are reported, never converged.
use vstd::prelude::*;
use crate::manifest::Assert;
use crate::packages::after_last;
use crate::text::{chars_of, is_ws, is_whitespace, lines, lines_of, push_chars, push_str, same, slice, string_of, trim, trimmed, views};
use crate::plan::str_eq;
use crate::manifest::str_views;

verus! {

/// The assertion kinds, in declaration order.
pub open spec fn assert_kinds() -> Seq<Seq<char>> {
    seq![
        "absent"@,
        "contains-line"@,
        "mode"@,
        "executable-resolves"@,
        "not-member"@,
        "shell"@,
        "json-semantic"@,
    ]
}

/// The kind an assertion reports under: its first set check field.
pub open spec fn assert_kind_spec(a: Assert) -> Seq<char> {
    if a.absent is Some {
        "absent"@
    } else if a.contains_line is Some {
        "contains-line"@
    } else if a.mode is Some {
        "mode"@
    } else if a.executable_resolves is Some {
        "executable-resolves"@
    } else if a.not_member is Some {
        "not-member"@
    } else if a.shell is Some {
        "shell"@
    } else if a.json_semantic is Some {
        "json-semantic"@
    } else {
        "unknown"@
    }
}

/// The finding kind of an assertion.
pub fn kind(a: &Assert) -> (r: &'static str)
    ensures
        r@ == assert_kind_spec(*a),
{
    if a.absent.is_some() {
        "absent"
    } else if a.contains_line.is_some() {
        "contains-line"
    } else if a.mode.is_some() {
        "mode"
    } else if a.executable_resolves.is_some() {
        "executable-resolves"
    } else if a.not_member.is_some() {
        "not-member"
    } else if a.shell.is_some() {
        "shell"
    } else if a.json_semantic.is_some() {
        "json-semantic"
    } else {
        "unknown"
    }
}

/// Whether a finding kind is an assertion's.
pub fn is_assert_kind(kind: &str) -> (r: bool)
    ensures
        r == assert_kinds().contains(kind@),
{
    let k = chars_of(kind);
    let names: [&str; 7] = [
        "absent",
        "contains-line",
        "mode",
        "executable-resolves",
        "not-member",
        "shell",
        "json-semantic",
    ];
    let ghost ks = assert_kinds();
    assert(names@.map_values(|s: &str| s@) =~= ks);
    let mut i: usize = 0;
    while i < 7
        invariant
            i <= 7,
            k@ == kind@,
            ks == assert_kinds(),
            names@.map_values(|s: &str| s@) == ks,
            forall|j: int| 0 <= j < i ==> ks[j] != kind@,
        decreases 7 - i,
    {
        if same(chars_of(names[i]).as_slice(), k.as_slice()) {
            assert(ks[i as int] == kind@);
            return true;
        }
        i += 1;
    }
    false
}

/// The target an assertion names: its path, file, executable or shell, or
/// `group:<name>` for a group check.
pub open spec fn target_spec(a: Assert) -> Seq<char> {
    match a.absent {
        Some(p) => p@,
        None => match a.contains_line {
            Some(c) => c.file@,
            None => match a.mode {
                Some(m) => m.path@,
                None => match a.executable_resolves {
                    Some(x) => x@,
                    None => match a.not_member {
                        Some(g) => "group:"@ + g.group@,
                        None => match a.shell {
                            Some(s) => s@,
                            None => match a.json_semantic {
                                Some(j) => j.file@,
                                None => Seq::empty(),
                            },
                        },
                    },
                },
            },
        },
    }
}

/// The target an assertion names.
pub fn target(a: &Assert) -> (r: String)
    ensures
        r@ == target_spec(*a),
{
    if let Some(p) = &a.absent {
        p.clone()
    } else if let Some(c) = &a.contains_line {
        c.file.clone()
    } else if let Some(m) = &a.mode {
        m.path.clone()
    } else if let Some(x) = &a.executable_resolves {
        x.clone()
    } else if let Some(g) = &a.not_member {
        let mut out = String::new();
        push_str(&mut out, "group:");
        push_str(&mut out, g.group.as_str());
        out
    } else if let Some(s) = &a.shell {
        s.clone()
    } else if let Some(j) = &a.json_semantic {
        j.file.clone()
    } else {
        String::new()
    }
}

/// A shell path's basename: shells match by name across equivalent paths
/// (`/usr/bin/zsh` and `/bin/zsh`).
pub fn shell_basename(s: &str) -> (r: String)
    ensures
        r@ == after_last(s@, '/'),
{
    let v = chars_of(s);
    let mut i = v.len();
    assert(v@.subrange(0, v@.len() as int) =~= v@);
    assert(v@ + v@.subrange(v@.len() as int, v@.len() as int) =~= v@);
    while i > 0 && v[i - 1] != '/'
        invariant
            i <= v@.len(),
            after_last(v@, '/') == after_last(v@.subrange(0, i as int), '/') + v@.subrange(i as int, v@.len() as int),
        decreases i,
    {
        let ghost pre = v@.subrange(0, i as int);
        assert(pre.drop_last() =~= v@.subrange(0, i as int - 1));
        assert(after_last(pre, '/') == after_last(pre.drop_last(), '/').push(pre.last()));
        assert(after_last(v@.subrange(0, i as int - 1), '/') + v@.subrange(i as int - 1, v@.len() as int)
            =~= after_last(pre.drop_last(), '/').push(pre.last()) + v@.subrange(i as int, v@.len() as int));
        i -= 1;
    }
    if i == 0 {
        assert(after_last(v@.subrange(0, 0), '/') =~= Seq::<char>::empty());
    } else {
        assert(after_last(v@.subrange(0, i as int), '/') =~= Seq::<char>::empty());
    }
    let r = crate::text::slice(v.as_slice(), i, v.len());
    assert(r@ =~= after_last(v@, '/'));
    crate::text::string_of(r.as_slice())
}


// ---------------------------------------------------------------------------
// Evaluating an assertion against what was read.

pub open spec fn is_octal(c: char) -> bool {
    '0' <= c && c <= '7'
}

pub open spec fn all_octal(s: Seq<char>) -> bool {
    forall|i: int| 0 <= i < s.len() ==> is_octal(#[trigger] s[i])
}

/// The number a string of octal digits spells.
pub open spec fn octal_value(s: Seq<char>) -> nat
    decreases s.len(),
{
    if s.len() == 0 {
        0
    } else {
        octal_value(s.drop_last()) * 8 + (s.last() as u32 - '0' as u32) as nat
    }
}

/// A mode as written (`0o644` or `644`) read as octal, as
/// `u32::from_str_radix(_, 8)` reads it after the `0o` is stripped: an
/// optional `+`, then a non-empty run of octal digits whose value fits.
pub open spec fn parse_mode_spec(s: Seq<char>) -> Option<u32> {
    let t = if s.len() >= 2 && s[0] == '0' && s[1] == 'o' { s.subrange(2, s.len() as int) } else { s };
    let d = if t.len() > 0 && t[0] == '+' { t.subrange(1, t.len() as int) } else { t };
    if d.len() > 0 && all_octal(d) && octal_value(d) <= u32::MAX {
        Some(octal_value(d) as u32)
    } else {
        None
    }
}

proof fn lemma_octal_prefix_bound(s: Seq<char>, n: int)
    requires
        0 <= n <= s.len(),
    ensures
        all_octal(s) ==> octal_value(s) >= octal_value(s.subrange(0, n)),
    decreases s.len() - n,
{
    if n < s.len() && all_octal(s) {
        lemma_octal_prefix_bound(s, n + 1);
        assert(s.subrange(0, n + 1).drop_last() =~= s.subrange(0, n));
        assert(octal_value(s.subrange(0, n + 1)) >= octal_value(s.subrange(0, n))) by (nonlinear_arith)
            requires
                octal_value(s.subrange(0, n + 1)) == octal_value(s.subrange(0, n)) * 8 + (s[n] as u32 - '0' as u32) as nat,
        ;
    } else if n == s.len() {
        assert(s.subrange(0, n) =~= s);
    }
}

/// Parse a permission mode.
pub fn parse_mode(s: &str) -> (r: Option<u32>)
    ensures
        r == parse_mode_spec(s@),
{
    let v = chars_of(s);
    let t = if v.len() >= 2 && v[0] == '0' && v[1] == 'o' { slice(v.as_slice(), 2, v.len()) } else { slice(v.as_slice(), 0, v.len()) };
    assert(v@.subrange(0, v@.len() as int) =~= v@);
    let d = if t.len() > 0 && t[0] == '+' { slice(t.as_slice(), 1, t.len()) } else { slice(t.as_slice(), 0, t.len()) };
    assert(t@.subrange(0, t@.len() as int) =~= t@);
    if d.len() == 0 {
        return None;
    }
    let ghost want = if all_octal(d@) && octal_value(d@) <= u32::MAX { Some(octal_value(d@) as u32) } else { None::<u32> };
    assert(parse_mode_spec(s@) == want);
    let mut acc: u32 = 0;
    let mut i: usize = 0;
    while i < d.len()
        invariant
            i <= d.len(),
            parse_mode_spec(s@) == want,
            want == if all_octal(d@) && octal_value(d@) <= u32::MAX { Some(octal_value(d@) as u32) } else { None::<u32> },
            all_octal(d@.subrange(0, i as int)),
            acc as nat == octal_value(d@.subrange(0, i as int)),
        decreases d.len() - i,
    {
        let c = d[i];
        assert(d@.subrange(0, i as int + 1).drop_last() =~= d@.subrange(0, i as int));
        if !('0' <= c && c <= '7') {
            assert(!is_octal(d@[i as int]));
            return None;
        }
        let dv = (c as u32 - '0' as u32);
        if acc > (u32::MAX - dv) / 8 {
            proof {
                lemma_octal_prefix_bound(d@, i as int + 1);
                assert(octal_value(d@.subrange(0, i as int + 1)) == acc * 8 + dv);
                assert(acc * 8 + dv > u32::MAX) by (nonlinear_arith)
                    requires
                        acc > (u32::MAX - dv) / 8,
                        dv <= 7,
                ;
            }
            return None;
        }
        assert(acc * 8 + dv <= u32::MAX) by (nonlinear_arith)
            requires
                acc <= (u32::MAX - dv) / 8,
                dv <= 7,
        ;
        acc = acc * 8 + dv;
        i += 1;
    }
    assert(d@.subrange(0, d.len() as int) =~= d@);
    Some(acc)
}

pub open spec fn octal_digit(d: nat) -> char {
    if d == 0 { '0' } else if d == 1 { '1' } else if d == 2 { '2' } else if d == 3 { '3' }
    else if d == 4 { '4' } else if d == 5 { '5' } else if d == 6 { '6' } else { '7' }
}

/// `n` in octal, as `{:o}` writes it.
pub open spec fn octal(n: nat) -> Seq<char>
    decreases n,
{
    if n < 8 {
        seq![octal_digit(n)]
    } else {
        octal(n / 8).push(octal_digit(n % 8))
    }
}

fn octal_digit_exec(d: u32) -> (c: char)
    requires
        d < 8,
    ensures
        c == octal_digit(d as nat),
{
    if d == 0 { '0' } else if d == 1 { '1' } else if d == 2 { '2' } else if d == 3 { '3' }
    else if d == 4 { '4' } else if d == 5 { '5' } else if d == 6 { '6' } else { '7' }
}

/// Appends `n` in octal.
pub fn push_octal(s: &mut String, n: u32)
    ensures
        final(s)@ == old(s)@ + octal(n as nat),
    decreases n,
{
    if n < 8 {
        push_chars(s, &[octal_digit_exec(n)]);
        assert(octal(n as nat) =~= seq![octal_digit(n as nat)]);
    } else {
        push_octal(s, n / 8);
        push_chars(s, &[octal_digit_exec(n % 8)]);
    }
}

/// The pieces a text splits into at each whitespace character.
pub open spec fn ws_pieces(s: Seq<char>) -> Seq<Seq<char>>
    decreases s.len(),
{
    if s.len() == 0 {
        seq![Seq::empty()]
    } else {
        let p = ws_pieces(s.drop_last());
        if is_ws(s.last()) {
            p.push(Seq::empty())
        } else {
            p.update(p.len() - 1, p.last().push(s.last()))
        }
    }
}

proof fn lemma_ws_pieces_nonempty(s: Seq<char>)
    ensures
        ws_pieces(s).len() >= 1,
    decreases s.len(),
{
    if s.len() > 0 {
        lemma_ws_pieces_nonempty(s.drop_last());
    }
}

/// `split_whitespace`: the non-empty pieces.
pub open spec fn words(s: Seq<char>) -> Seq<Seq<char>> {
    ws_pieces(s).filter(|w: Seq<char>| w.len() > 0)
}

/// The whitespace-separated words of a text.
pub fn split_words(s: &str) -> (r: Vec<String>)
    ensures
        str_views(r@) == words(s@),
{
    let v = chars_of(s);
    let mut out: Vec<String> = Vec::new();
    let mut cur: Vec<char> = Vec::new();
    let mut i: usize = 0;
    proof {
        assert(v@.subrange(0, 0) =~= Seq::<char>::empty());
    }
    while i < v.len()
        invariant
            i <= v@.len(),
            v@ == s@,
            ws_pieces(v@.subrange(0, i as int)).len() >= 1,
            ws_pieces(v@.subrange(0, i as int)).last() == cur@,
            str_views(out@) == ws_pieces(v@.subrange(0, i as int)).drop_last().filter(|w: Seq<char>| w.len() > 0),
        decreases v.len() - i,
    {
        let ghost pre = v@.subrange(0, i as int);
        let ghost p = ws_pieces(pre);
        let ghost nxt = v@.subrange(0, i as int + 1);
        assert(nxt.drop_last() =~= pre);
        assert(nxt.last() == v@[i as int]);
        if is_whitespace(v[i]) {
            proof {
                reveal(Seq::filter);
                assert(ws_pieces(nxt) == p.push(Seq::<char>::empty()));
                assert(ws_pieces(nxt).drop_last() =~= p);
                assert(p =~= p.drop_last().push(p.last()));
            }
            if cur.len() > 0 {
                let ghost before = str_views(out@);
                out.push(string_of(cur.as_slice()));
                assert(str_views(out@) =~= before.push(cur@));
            }
            cur = Vec::new();
        } else {
            cur.push(v[i]);
            proof {
                let q = p.update(p.len() - 1, p.last().push(v@[i as int]));
                assert(ws_pieces(nxt) == q);
                assert(q.drop_last() =~= p.drop_last());
            }
        }
        i += 1;
    }
    proof {
        assert(v@.subrange(0, v@.len() as int) =~= v@);
        let p = ws_pieces(v@);
        assert(p =~= p.drop_last().push(p.last()));
        reveal(Seq::filter);
    }
    if cur.len() > 0 {
        let ghost before = str_views(out@);
        out.push(string_of(cur.as_slice()));
        assert(str_views(out@) =~= before.push(cur@));
    }
    out
}

/// What was read for an assertion's check.
#[derive(Debug, Clone, PartialEq, Eq)]
pub enum AssertSeen {
    /// `absent`: whether the path exists.
    Exists(bool),
    /// `contains_line`: the file's text, none when it is missing.
    Text(Option<String>),
    /// `mode`: the path's mode bits, none when it is missing.
    Mode(Option<u32>),
    /// `executable_resolves`: whether the command is on `PATH`.
    Resolves(bool),
    /// `not_member`: the output of `id -Gn` (empty when it could not run).
    Groups(String),
    /// `shell`: the login shell, none when it could not be read.
    Shell(Option<String>),
    /// `json_semantic`: none when the deployed file is missing, else whether
    /// it means the same JSON as its reference.
    Json(Option<bool>),
}

/// Why an assertion could not be evaluated.
#[derive(Debug, Clone, Copy, PartialEq, Eq, Structural)]
pub enum EvalError {
    /// The `mode` is not octal.
    BadMode,
    /// The assertion sets no check field.
    NoCheck,
    /// What was read does not belong to this assertion's check.
    WrongObservation,
}

/// The verdict for an assertion and what was read for it: pass or fail,
/// and the status line.
pub open spec fn verdict_spec(a: Assert, seen: AssertSeen) -> Result<(bool, Seq<char>), EvalError> {
    if a.absent is Some {
        match seen {
            AssertSeen::Exists(e) => Ok(if e { (false, "should not exist"@) } else { (true, "absent"@) }),
            _ => Err(EvalError::WrongObservation),
        }
    } else if a.contains_line is Some {
        let c = a.contains_line->0;
        match seen {
            AssertSeen::Text(None) => Ok((false, "file missing"@)),
            AssertSeen::Text(Some(hay)) => if lines_of(hay@).map_values(|l: Seq<char>| trim(l)).contains(trim(c.line@)) {
                Ok((true, "line present"@))
            } else {
                Ok((false, "missing line `"@ + c.line@ + "`"@))
            },
            _ => Err(EvalError::WrongObservation),
        }
    } else if a.mode is Some {
        let m = a.mode->0;
        match seen {
            AssertSeen::Mode(None) => Ok((false, "path missing"@)),
            AssertSeen::Mode(Some(bits)) => match parse_mode_spec(m.mode@) {
                None => Err(EvalError::BadMode),
                Some(want) => {
                    let have = (bits & 0o777u32) as nat;
                    if have == want {
                        Ok((true, "mode "@ + octal(have)))
                    } else {
                        Ok((false, "mode "@ + octal(have) + ", want "@ + octal(want as nat)))
                    }
                },
            },
            _ => Err(EvalError::WrongObservation),
        }
    } else if a.executable_resolves is Some {
        match seen {
            AssertSeen::Resolves(r) => Ok(if r { (true, "resolves"@) } else { (false, "not on PATH"@) }),
            _ => Err(EvalError::WrongObservation),
        }
    } else if a.not_member is Some {
        let g = a.not_member->0;
        match seen {
            AssertSeen::Groups(out) => Ok(if words(out@).contains(g.group@) {
                (false, "in group "@ + g.group@)
            } else {
                (true, "not a member"@)
            }),
            _ => Err(EvalError::WrongObservation),
        }
    } else if a.shell is Some {
        let want = a.shell->0;
        match seen {
            AssertSeen::Shell(None) => Ok((false, "could not read login shell"@)),
            AssertSeen::Shell(Some(have)) => if after_last(have@, '/') == after_last(want@, '/') {
                Ok((true, have@))
            } else {
                Ok((false, "shell "@ + have@ + ", want "@ + want@))
            },
            _ => Err(EvalError::WrongObservation),
        }
    } else if a.json_semantic is Some {
        match seen {
            AssertSeen::Json(None) => Ok((false, "file missing"@)),
            AssertSeen::Json(Some(same_json)) => Ok(if same_json { (true, "matches reference"@) } else { (false, "differs from reference"@) }),
            _ => Err(EvalError::WrongObservation),
        }
    } else {
        Err(EvalError::NoCheck)
    }
}

fn lit(s: &str) -> (r: String)
    ensures
        r@ == s@,
{
    let mut r = String::new();
    push_str(&mut r, s);
    r
}

/// Whether some line of `hay`, trimmed, is `line` trimmed.
fn has_line(hay: &str, line: &str) -> (r: bool)
    ensures
        r == lines_of(hay@).map_values(|l: Seq<char>| trim(l)).contains(trim(line@)),
{
    let ls = lines(chars_of(hay).as_slice());
    let want = trimmed(chars_of(line).as_slice());
    let ghost tl = lines_of(hay@).map_values(|l: Seq<char>| trim(l));
    let mut i: usize = 0;
    while i < ls.len()
        invariant
            i <= ls@.len(),
            views(ls@) == lines_of(hay@),
            tl == lines_of(hay@).map_values(|l: Seq<char>| trim(l)),
            want@ == trim(line@),
            forall|j: int| 0 <= j < i ==> tl[j] != want@,
        decreases ls.len() - i,
    {
        if same(trimmed(ls[i].as_slice()).as_slice(), want.as_slice()) {
            assert(tl[i as int] == trim(ls@[i as int]@));
            assert(tl.contains(want@));
            return true;
        }
        assert(tl[i as int] == trim(ls@[i as int]@));
        i += 1;
    }
    proof {
        if tl.contains(want@) {
            let j = choose|j: int| 0 <= j < tl.len() && tl[j] == want@;
            assert(false);
        }
    }
    false
}

/// Evaluate an assertion against what was read for it.
pub fn verdict(a: &Assert, seen: &AssertSeen) -> (r: Result<(bool, String), EvalError>)
    ensures
        match r {
            Ok((ok, msg)) => verdict_spec(*a, *seen) == Ok::<(bool, Seq<char>), EvalError>((ok, msg@)),
            Err(e) => verdict_spec(*a, *seen) == Err::<(bool, Seq<char>), EvalError>(e),
        },
{
    if a.absent.is_some() {
        return match seen {
            AssertSeen::Exists(e) => Ok(if *e { (false, lit("should not exist")) } else { (true, lit("absent")) }),
            _ => Err(EvalError::WrongObservation),
        };
    }
    if let Some(c) = &a.contains_line {
        return match seen {
            AssertSeen::Text(None) => Ok((false, lit("file missing"))),
            AssertSeen::Text(Some(hay)) => if has_line(hay.as_str(), c.line.as_str()) {
                Ok((true, lit("line present")))
            } else {
                let mut m = lit("missing line `");
                push_str(&mut m, c.line.as_str());
                push_str(&mut m, "`");
                Ok((false, m))
            },
            _ => Err(EvalError::WrongObservation),
        };
    }
    if let Some(m) = &a.mode {
        return match seen {
            AssertSeen::Mode(None) => Ok((false, lit("path missing"))),
            AssertSeen::Mode(Some(bits)) => match parse_mode(m.mode.as_str()) {
                None => Err(EvalError::BadMode),
                Some(want) => {
                    let have = *bits & 0o777u32;
                    let mut msg = lit("mode ");
                    push_octal(&mut msg, have);
                    if have == want {
                        Ok((true, msg))
                    } else {
                        push_str(&mut msg, ", want ");
                        push_octal(&mut msg, want);
                        Ok((false, msg))
                    }
                },
            },
            _ => Err(EvalError::WrongObservation),
        };
    }
    if a.executable_resolves.is_some() {
        return match seen {
            AssertSeen::Resolves(r) => Ok(if *r { (true, lit("resolves")) } else { (false, lit("not on PATH")) }),
            _ => Err(EvalError::WrongObservation),
        };
    }
    if let Some(g) = &a.not_member {
        return match seen {
            AssertSeen::Groups(out) => {
                let ws = split_words(out.as_str());
                if crate::lists::has_string(ws.as_slice(), g.group.as_str()) {
                    let mut m = lit("in group ");
                    push_str(&mut m, g.group.as_str());
                    Ok((false, m))
                } else {
                    Ok((true, lit("not a member")))
                }
            },
            _ => Err(EvalError::WrongObservation),
        };
    }
    if let Some(want) = &a.shell {
        return match seen {
            AssertSeen::Shell(None) => Ok((false, lit("could not read login shell"))),
            AssertSeen::Shell(Some(have)) => if str_eq(shell_basename(have.as_str()).as_str(), shell_basename(want.as_str()).as_str()) {
                Ok((true, lit(have.as_str())))
            } else {
                let mut m = lit("shell ");
                push_str(&mut m, have.as_str());
                push_str(&mut m, ", want ");
                push_str(&mut m, want.as_str());
                Ok((false, m))
            },
            _ => Err(EvalError::WrongObservation),
        };
    }
    if a.json_semantic.is_some() {
        return match seen {
            AssertSeen::Json(None) => Ok((false, lit("file missing"))),
            AssertSeen::Json(Some(same_json)) => Ok(if *same_json { (true, lit("matches reference")) } else { (false, lit("differs from reference")) }),
            _ => Err(EvalError::WrongObservation),
        };
    }
    Err(EvalError::NoCheck)
}

} // verus!
