//! A git-backed temper-home, as git reports it: the reason a command failed,
//! the paths `status --porcelain` lists, the one-line status, what a pull
//! and a push actually moved, and the commit message a save writes. Running
//! git is the caller's part; everything here reads what git printed.
use vstd::prelude::*;
use crate::manifest::str_views;
use crate::plan::join_with;
use crate::providers::first_word;
use crate::text::{
    byte_len, chars_of, decimal, first_ws, has_ws, lines, lines_of, parse_u32, parse_u32_spec, push_chars,
    push_decimal, push_str, same, slice, string_of, trim, trim_start, trimmed, trimmed_start, utf8_len, views,
};

verus! {

/// What `String::from_utf8_lossy` makes of some bytes: UTF-8 decoded, each
/// invalid sequence replaced by U+FFFD.
pub uninterp spec fn lossy(b: Seq<u8>) -> Seq<char>;

/// `String::from_utf8_lossy`, which depends on the bytes alone.
#[verifier::external_body]
fn utf8_lossy(b: &[u8]) -> (r: String)
    ensures
        r@ == lossy(b@),
{
    String::from_utf8_lossy(b).into_owned()
}

/// The last line with something on it.
pub open spec fn last_nonblank(ls: Seq<Seq<char>>) -> Option<Seq<char>>
    decreases ls.len(),
{
    if ls.len() == 0 {
        None
    } else if trim(ls.last()).len() > 0 {
        Some(ls.last())
    } else {
        last_nonblank(ls.drop_last())
    }
}

/// The last non-empty line of a command's error output, trimmed, or
/// `failed` when there is none.
pub open spec fn reason_spec(t: Seq<char>) -> Seq<char> {
    match last_nonblank(lines_of(t)) {
        Some(l) => trim(l),
        None => "failed"@,
    }
}

/// A terse reason for a warning, from a failed command's error text.
pub fn reason_text(text: &str) -> (r: String)
    ensures
        r@ == reason_spec(text@),
{
    let ls = lines(chars_of(text).as_slice());
    let ghost lv = lines_of(text@);
    let mut i = ls.len();
    assert(lv.take(lv.len() as int) =~= lv);
    while i > 0
        invariant
            i <= ls@.len(),
            views(ls@) == lv,
            lv == lines_of(text@),
            last_nonblank(lv) == last_nonblank(lv.take(i as int)),
        decreases i,
    {
        let ghost t = lv.take(i as int);
        assert(t.drop_last() =~= lv.take(i as int - 1));
        assert(t.last() == lv[i as int - 1]);
        assert(lv[i as int - 1] == ls@[i as int - 1]@);
        let tl = trimmed(ls[i - 1].as_slice());
        if tl.len() > 0 {
            return string_of(tl.as_slice());
        }
        i -= 1;
    }
    assert(lv.take(0) =~= Seq::<Seq<char>>::empty());
    let mut r = String::new();
    push_str(&mut r, "failed");
    r
}

/// The reason git gave in its error output.
pub fn reason(stderr: &[u8]) -> (r: String)
    ensures
        r@ == reason_spec(lossy(stderr@)),
{
    let t = utf8_lossy(stderr);
    reason_text(t.as_str())
}

// ---------------------------------------------------------------------------
// Changed paths

/// `l.get(n..)`: the text after the first `n` bytes, when they end on a char
/// boundary within `l`.
pub open spec fn after_bytes(l: Seq<char>, n: nat) -> Option<Seq<char>> {
    if exists|k: int| 0 <= k <= l.len() && #[trigger] byte_len(l.take(k)) == n {
        Some(l.skip(choose|k: int| 0 <= k <= l.len() && #[trigger] byte_len(l.take(k)) == n))
    } else {
        None
    }
}

proof fn lemma_byte_len_take(l: Seq<char>, a: int, b: int)
    requires
        0 <= a < b <= l.len(),
    ensures
        byte_len(l.take(a)) < byte_len(l.take(b)),
    decreases b - a,
{
    assert(l.take(b).drop_last() =~= l.take(b - 1));
    if a < b - 1 {
        lemma_byte_len_take(l, a, b - 1);
    }
}

fn utf8_len_exec(c: char) -> (n: u8)
    ensures
        n == utf8_len(c),
{
    let u = c as u32;
    if u < 0x80 {
        1
    } else if u < 0x800 {
        2
    } else if u < 0x10000 {
        3
    } else {
        4
    }
}

fn after_bytes_exec(l: &[char], n: u8) -> (r: Option<Vec<char>>)
    ensures
        match r {
            Some(x) => after_bytes(l@, n as nat) == Some(x@),
            None => after_bytes(l@, n as nat) is None,
        },
{
    let mut acc: u64 = 0;
    let mut k: usize = 0;
    assert(l@.take(0) =~= Seq::<char>::empty());
    while k < l.len() && acc < n as u64
        invariant
            k <= l@.len(),
            acc == byte_len(l@.take(k as int)),
            acc <= n + 4,
            forall|j: int| 0 <= j < k ==> #[trigger] byte_len(l@.take(j)) < n,
        decreases l.len() - k,
    {
        assert(l@.take(k as int + 1).drop_last() =~= l@.take(k as int));
        assert(l@.take(k as int + 1).last() == l@[k as int]);
        acc = acc + utf8_len_exec(l[k]) as u64;
        k += 1;
    }
    proof {
        if exists|j: int| 0 <= j <= l@.len() && #[trigger] byte_len(l@.take(j)) == n {
            let j = choose|j: int| 0 <= j <= l@.len() && #[trigger] byte_len(l@.take(j)) == n;
            if acc == n {
                if j < k {
                    lemma_byte_len_take(l@, j, k as int);
                } else if j > k {
                    lemma_byte_len_take(l@, k as int, j);
                }
            } else if acc > n {
                if j < k {
                } else if j > k {
                    lemma_byte_len_take(l@, k as int, j);
                }
            } else {
                // ran out of text below `n` bytes
                assert(k == l@.len());
                if j < k {
                } else {
                    assert(l@.take(j) =~= l@.take(k as int));
                }
            }
        }
    }
    if acc == n as u64 {
        let len = l.len();
        let rest = slice(l, k, len);
        assert(rest@ =~= l@.skip(k as int));
        Some(rest)
    } else {
        None
    }
}

/// The path a porcelain status line names: what follows its three-byte
/// status prefix, trimmed; nothing for a shorter line or an empty path.
pub open spec fn porcelain_path(l: Seq<char>) -> Option<Seq<char>> {
    match after_bytes(l, 3) {
        Some(p) => if trim(p).len() > 0 { Some(trim(p)) } else { None },
        None => None,
    }
}

pub open spec fn porcelain_paths(ls: Seq<Seq<char>>) -> Seq<Seq<char>>
    decreases ls.len(),
{
    if ls.len() == 0 {
        Seq::empty()
    } else {
        match porcelain_path(ls.last()) {
            Some(p) => porcelain_paths(ls.drop_last()).push(p),
            None => porcelain_paths(ls.drop_last()),
        }
    }
}

/// The changed paths `git status --porcelain` printed.
pub fn changed_paths(porcelain: &str) -> (r: Vec<String>)
    ensures
        str_views(r@) == porcelain_paths(lines_of(porcelain@)),
{
    let ls = lines(chars_of(porcelain).as_slice());
    let ghost lv = lines_of(porcelain@);
    let mut out: Vec<String> = Vec::new();
    let mut i: usize = 0;
    while i < ls.len()
        invariant
            i <= ls@.len(),
            views(ls@) == lv,
            str_views(out@) == porcelain_paths(lv.take(i as int)),
        decreases ls.len() - i,
    {
        let ghost t = lv.take(i as int + 1);
        assert(t.drop_last() =~= lv.take(i as int));
        assert(t.last() == lv[i as int]);
        assert(lv[i as int] == ls@[i as int]@);
        match after_bytes_exec(ls[i].as_slice(), 3) {
            Some(p) => {
                let tp = trimmed(p.as_slice());
                if tp.len() > 0 {
                    let ghost before = str_views(out@);
                    out.push(string_of(tp.as_slice()));
                    assert(str_views(out@) =~= before.push(tp@));
                }
            },
            None => {},
        }
        i += 1;
    }
    assert(lv.take(lv.len() as int) =~= lv);
    out
}

/// The commit message a save writes after hand edits: the first three
/// changed paths, and how many more there are.
pub open spec fn message_spec(paths: Seq<Seq<char>>) -> Seq<char> {
    if paths.len() == 0 {
        "temper: save spec"@
    } else if paths.len() > 3 {
        "spec update: "@ + join_with(paths.take(3), ", "@) + " (+"@ + decimal((paths.len() - 3) as nat) + " more)"@
    } else {
        "spec update: "@ + join_with(paths, ", "@)
    }
}

/// `spec update: a, b, c (+N more)` for the changed paths.
pub fn message_from_changes(paths: &[String]) -> (r: String)
    ensures
        r@ == message_spec(str_views(paths@)),
{
    let mut r = String::new();
    if paths.len() == 0 {
        push_str(&mut r, "temper: save spec");
        return r;
    }
    let shown: usize = if paths.len() > 3 { 3 } else { paths.len() };
    let ghost pv = str_views(paths@);
    push_str(&mut r, "spec update: ");
    let ghost head = r@;
    let mut i: usize = 0;
    while i < shown
        invariant
            i <= shown <= paths@.len(),
            shown == if paths@.len() > 3 { 3 } else { paths@.len() },
            pv == str_views(paths@),
            r@ == head + join_with(pv.take(i as int), ", "@),
        decreases shown - i,
    {
        if i > 0 {
            push_str(&mut r, ", ");
        }
        push_str(&mut r, paths[i].as_str());
        proof {
            let t = pv.take(i as int + 1);
            assert(t.drop_last() =~= pv.take(i as int));
            assert(t.last() == paths@[i as int]@);
            if i == 0 {
                assert(pv.take(0) =~= Seq::<Seq<char>>::empty());
            }
        }
        i += 1;
    }
    if paths.len() > 3 {
        push_str(&mut r, " (+");
        push_decimal(&mut r, (paths.len() - 3) as u64);
        push_str(&mut r, " more)");
    } else {
        assert(pv.take(pv.len() as int) =~= pv);
    }
    r
}

// ---------------------------------------------------------------------------
// The status line

/// The word after the first (`split_whitespace().nth(1)`).
pub open spec fn second_word(s: Seq<char>) -> Option<Seq<char>> {
    let t = trim_start(s);
    if has_ws(t) {
        first_word(t.skip(first_ws(t) + 1))
    } else {
        None
    }
}

/// A count word read as `u32`, `0` when it is absent or not a number.
pub open spec fn count_of(w: Option<Seq<char>>) -> u32 {
    match w {
        Some(x) => match parse_u32_spec(x) {
            Some(n) => n,
            None => 0,
        },
        None => 0,
    }
}

/// `branch (↓behind ↑ahead) — dirty|clean`: the branch (`?` when unknown),
/// the upstream counts (`no upstream` when there is none), and whether the
/// tree has changes.
pub open spec fn status_spec(branch: Option<Seq<char>>, counts: Option<Seq<char>>, dirty: bool) -> Seq<char> {
    let b = match branch {
        Some(s) => trim(s),
        None => "?"@,
    };
    let ab = match counts {
        Some(c) => "↓"@ + decimal(count_of(first_word(c)) as nat) + " ↑"@ + decimal(count_of(second_word(c)) as nat),
        None => "no upstream"@,
    };
    b + " ("@ + ab + ") — "@ + if dirty { "dirty"@ } else { "clean"@ }
}

fn word_exec(v: &[char], second: bool) -> (r: Option<Vec<char>>)
    ensures
        match r {
            Some(w) => (if second { second_word(v@) } else { first_word(v@) }) == Some(w@),
            None => (if second { second_word(v@) } else { first_word(v@) }) is None,
        },
{
    let t = trimmed_start(v);
    let s2 = if second {
        match crate::text::find_ws(t.as_slice()) {
            Some(i) => {
                let n = t.len();
                let rest = slice(t.as_slice(), i + 1, n);
                assert(rest@ =~= t@.skip(i as int + 1));
                trimmed_start(rest.as_slice())
            },
            None => {
                return None;
            },
        }
    } else {
        t
    };
    if s2.len() == 0 {
        return None;
    }
    match crate::text::find_ws(s2.as_slice()) {
        Some(i) => {
            let w = slice(s2.as_slice(), 0, i);
            assert(w@ =~= s2@.take(i as int));
            Some(w)
        },
        None => Some(s2),
    }
}

fn count_exec(w: Option<Vec<char>>) -> (n: u32)
    ensures
        n == count_of(match w {
            Some(x) => Some(x@),
            None => None,
        }),
{
    match w {
        Some(x) => match parse_u32(x.as_slice()) {
            Some(n) => n,
            None => 0,
        },
        None => 0,
    }
}

/// A short status line: branch, ahead/behind and dirty. `branch` is what
/// `rev-parse --abbrev-ref HEAD` printed, `counts` what `rev-list
/// --left-right --count @{u}...HEAD` printed; each is `None` when its
/// command failed.
pub fn status_line(branch: Option<&str>, counts: Option<&str>, dirty: bool) -> (r: String)
    ensures
        r@ == status_spec(
            match branch {
                Some(b) => Some(b@),
                None => None,
            },
            match counts {
                Some(c) => Some(c@),
                None => None,
            },
            dirty,
        ),
{
    let mut r = String::new();
    let ghost bpart: Seq<char>;
    match branch {
        Some(b) => {
            let tb = trimmed(chars_of(b).as_slice());
            push_chars(&mut r, tb.as_slice());
            proof {
                bpart = tb@;
            }
        },
        None => {
            push_str(&mut r, "?");
            proof {
                bpart = "?"@;
            }
        },
    }
    assert(r@ =~= bpart);
    push_str(&mut r, " (");
    let ghost at_ab = r@;
    let ghost abpart: Seq<char>;
    match counts {
        Some(c) => {
            let cv = chars_of(c);
            let behind = count_exec(word_exec(cv.as_slice(), false));
            let ahead = count_exec(word_exec(cv.as_slice(), true));
            push_str(&mut r, "↓");
            push_decimal(&mut r, behind as u64);
            push_str(&mut r, " ↑");
            push_decimal(&mut r, ahead as u64);
            proof {
                abpart = "↓"@ + decimal(behind as nat) + " ↑"@ + decimal(ahead as nat);
                assert(r@ =~= at_ab + abpart);
            }
        },
        None => {
            push_str(&mut r, "no upstream");
            proof {
                abpart = "no upstream"@;
            }
        },
    }
    assert(r@ =~= bpart + " ("@ + abpart);
    push_str(&mut r, ") — ");
    if dirty {
        push_str(&mut r, "dirty");
    } else {
        push_str(&mut r, "clean");
    }
    r
}

// ---------------------------------------------------------------------------
// Pull, push, save

/// How a git command ended: whether it succeeded, and its error output.
#[derive(Debug, Clone)]
pub struct GitRun {
    pub ok: bool,
    pub stderr: Vec<u8>,
}

/// Outcome of a best-effort pull: the effect, not that git ran.
#[derive(Debug, Clone, PartialEq, Eq)]
pub enum Pull {
    /// The pull succeeded and moved nothing.
    UpToDate,
    /// How many commits landed.
    Updated(u32),
    /// Could not pull, and why.
    Warn(String),
    /// Not a git repo, or git absent.
    NotRepo,
}

pub open spec fn opt_view(o: Option<String>) -> Option<Seq<char>> {
    match o {
        Some(s) => Some(s@),
        None => None,
    }
}

/// A warning with this text.
pub open spec fn warns(p: Pull, text: Seq<char>) -> bool {
    match p {
        Pull::Warn(w) => w@ == text,
        _ => false,
    }
}

/// HEAD moved: both heads known and different.
pub open spec fn head_moved(before: Option<Seq<char>>, after: Option<Seq<char>>) -> bool {
    before is Some && after is Some && before->0 != after->0
}

/// The commits a moved HEAD counts: the count git printed, or one when it
/// printed none.
pub open spec fn landed(count: Option<Seq<char>>) -> u32 {
    match count {
        Some(c) => match parse_u32_spec(trim(c)) {
            Some(n) => n,
            None => 1,
        },
        None => 1,
    }
}

/// Whether a pull needs the commits between the two heads counted.
pub fn needs_count(before: &Option<String>, after: &Option<String>) -> (r: bool)
    ensures
        r == head_moved(opt_view(*before), opt_view(*after)),
{
    match (before, after) {
        (Some(b), Some(a)) => !same(chars_of(b.as_str()).as_slice(), chars_of(a.as_str()).as_slice()),
        _ => false,
    }
}

/// What a pull did, from what git reported: `NotRepo` off a repo; a warning
/// with git's reason when the pull failed (or could not run); else whether
/// HEAD moved and, if so, how many commits landed (`count`, what `rev-list
/// --count before..after` printed, `None` when it failed).
pub fn pull(is_repo: bool, before: Option<String>, ran: Option<GitRun>, after: Option<String>, count: Option<String>) -> (r: Pull)
    ensures
        !is_repo ==> r == Pull::NotRepo,
        is_repo ==> match ran {
            None => warns(r, "could not run git"@),
            Some(g) => if !g.ok {
                warns(r, reason_spec(lossy(g.stderr@)))
            } else if head_moved(opt_view(before), opt_view(after)) {
                r == Pull::Updated(landed(opt_view(count)))
            } else {
                r == Pull::UpToDate
            },
        },
{
    if !is_repo {
        return Pull::NotRepo;
    }
    match ran {
        None => {
            let mut w = String::new();
            push_str(&mut w, "could not run git");
            Pull::Warn(w)
        },
        Some(g) => {
            if !g.ok {
                Pull::Warn(reason(g.stderr.as_slice()))
            } else if needs_count(&before, &after) {
                let n = match count {
                    Some(c) => match parse_u32(trimmed(chars_of(c.as_str()).as_slice()).as_slice()) {
                        Some(n) => n,
                        None => 1,
                    },
                    None => 1,
                };
                Pull::Updated(n)
            } else {
                Pull::UpToDate
            }
        },
    }
}

/// The remote moved: both upstream commits known and different, or an
/// upstream that did not exist before and does now.
pub open spec fn remote_moved(before: Option<Seq<char>>, after: Option<Seq<char>>) -> bool {
    match (before, after) {
        (Some(b), Some(a)) => b != a,
        (None, Some(_)) => true,
        _ => false,
    }
}

/// What a push did: whether it moved the remote (the upstream commit
/// before and after), and a warning when it failed or could not run.
pub fn push_outcome(before: Option<String>, ran: Option<GitRun>, after: Option<String>) -> (r: (bool, Option<String>))
    ensures
        match ran {
            None => !r.0 && opt_view(r.1) == Some("could not run git push"@),
            Some(g) => if g.ok {
                r.0 == remote_moved(opt_view(before), opt_view(after)) && r.1 is None
            } else {
                !r.0 && opt_view(r.1) == Some("push failed: "@ + reason_spec(lossy(g.stderr@)))
            },
        },
{
    match ran {
        None => {
            let mut w = String::new();
            push_str(&mut w, "could not run git push");
            (false, Some(w))
        },
        Some(g) => {
            if g.ok {
                let moved = match (&before, &after) {
                    (Some(b), Some(a)) => !same(chars_of(b.as_str()).as_slice(), chars_of(a.as_str()).as_slice()),
                    (None, Some(_)) => true,
                    _ => false,
                };
                (moved, None)
            } else {
                let mut w = String::new();
                push_str(&mut w, "push failed: ");
                let why = reason(g.stderr.as_slice());
                push_str(&mut w, why.as_str());
                (false, Some(w))
            }
        },
    }
}

/// What a save did.
#[derive(Debug, Clone, PartialEq, Eq)]
pub struct SaveReport {
    pub committed: bool,
    /// A push succeeded and moved the remote.
    pub pushed: bool,
    pub message: String,
    /// A non-fatal warning.
    pub warning: Option<String>,
}

/// The warning a save reports: the pull's warning, if any; on a clean tree
/// a push warning only when the pull gave none, after a commit a push
/// warning always, prefixed `committed, but`.
pub open spec fn save_warning(committed: bool, pulled: Pull, pushed: (bool, Option<String>)) -> Option<Seq<char>> {
    let from_pull = match pulled {
        Pull::Warn(w) => Some(w@),
        _ => None,
    };
    match pushed.1 {
        Some(w) => if committed {
            Some("committed, but "@ + w@)
        } else {
            match from_pull {
                Some(p) => Some(p),
                None => Some(w@),
            }
        },
        None => from_pull,
    }
}

/// The report of a save that committed (or found nothing to commit) and,
/// when asked to push, pulled then pushed with these outcomes.
pub fn save_report(committed: bool, message: &str, sync: Option<(Pull, (bool, Option<String>))>) -> (r: SaveReport)
    ensures
        r.committed == committed,
        r.message@ == message@,
        match sync {
            None => !r.pushed && r.warning is None,
            Some((p, q)) => r.pushed == q.0 && opt_view(r.warning) == save_warning(committed, p, q),
        },
{
    let mut msg = String::new();
    push_str(&mut msg, message);
    match sync {
        None => SaveReport { committed, pushed: false, message: msg, warning: None },
        Some((p, q)) => {
            let from_pull = match p {
                Pull::Warn(w) => Some(w),
                _ => None,
            };
            let (moved, pw) = q;
            let warning = match pw {
                Some(w) => if committed {
                    let mut s = String::new();
                    push_str(&mut s, "committed, but ");
                    push_str(&mut s, w.as_str());
                    Some(s)
                } else {
                    match from_pull {
                        Some(x) => Some(x),
                        None => Some(w),
                    }
                },
                None => from_pull,
            };
            SaveReport { committed, pushed: moved, message: msg, warning }
        },
    }
}


/// Whether the folder is a git work tree: git is installed and `rev-parse
/// --is-inside-work-tree` succeeded there.
pub fn is_repo(have_git: bool, rev_parse_ok: bool) -> (r: bool)
    ensures
        r == (have_git && rev_parse_ok),
{
    have_git && rev_parse_ok
}

/// Whether the work tree has uncommitted changes: `status --porcelain`
/// ran, succeeded and printed something.
pub fn is_dirty(status_ok: Option<bool>, porcelain: &[u8]) -> (r: bool)
    ensures
        r == (status_ok == Some(true) && porcelain@.len() > 0),
{
    match status_ok {
        Some(true) => porcelain.len() > 0,
        _ => false,
    }
}

/// What a save does first: refused outside a git work tree; else commit
/// exactly when the tree has changes (a clean tree may still be pushed).
pub open spec fn save_start_spec(home: Seq<char>, repo: bool, dirty: bool) -> Result<bool, Seq<char>> {
    if !repo {
        Err(home + " is not a git repo \u{2014} nothing to save"@)
    } else {
        Ok(dirty)
    }
}

/// Whether a save commits, from whether the folder is a work tree and has
/// changes; outside a work tree the refusal, and nothing is staged,
/// committed or pushed.
pub fn save_start(home: &str, repo: bool, dirty: bool) -> (r: Result<bool, String>)
    ensures
        match r {
            Ok(c) => save_start_spec(home@, repo, dirty) == Ok::<bool, Seq<char>>(c),
            Err(m) => save_start_spec(home@, repo, dirty) == Err::<bool, Seq<char>>(m@),
        },
{
    if !repo {
        let mut m = String::new();
        push_str(&mut m, home);
        push_str(&mut m, " is not a git repo \u{2014} nothing to save");
        return Err(m);
    }
    Ok(dirty)
}

/// Why staging and committing failed, if they did: `git add` first, then
/// `git commit` with the reason its error output gives.
pub open spec fn commit_failure_spec(home: Seq<char>, added: bool, committed: bool, stderr: Seq<u8>) -> Option<Seq<char>> {
    if !added {
        Some("git add failed in "@ + home)
    } else if !committed {
        Some("git commit failed: "@ + reason_spec(lossy(stderr)))
    } else {
        None
    }
}

/// The failure of a save's stage-and-commit, from whether `git add -A`
/// and `git commit` succeeded and what the commit printed on error.
pub fn commit_failure(home: &str, added: bool, committed: bool, stderr: &[u8]) -> (r: Option<String>)
    ensures
        opt_view(r) == commit_failure_spec(home@, added, committed, stderr@),
{
    if !added {
        let mut m = String::new();
        push_str(&mut m, "git add failed in ");
        push_str(&mut m, home);
        return Some(m);
    }
    if !committed {
        let mut m = String::new();
        push_str(&mut m, "git commit failed: ");
        let why = reason(stderr);
        push_str(&mut m, why.as_str());
        return Some(m);
    }
    None
}

} // verus!
